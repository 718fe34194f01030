//! Dictionary order of texts.
use crate::text::{chars_of, same_string};
use vstd::prelude::*;

verus! {

/// Whether `a` comes before `b` in dictionary order of code points.
pub open spec fn text_less(a: Seq<char>, b: Seq<char>) -> bool
    decreases a.len(),
{
    if b.len() == 0 {
        false
    } else if a.len() == 0 {
        true
    } else if a[0] == b[0] {
        text_less(a.skip(1), b.skip(1))
    } else {
        a[0] < b[0]
    }
}

/// Dictionary order is strict and total.
pub proof fn lemma_text_order(a: Seq<char>, b: Seq<char>)
    ensures
        a == b ==> !text_less(a, b),
        text_less(a, b) ==> !text_less(b, a),
        a != b ==> text_less(a, b) || text_less(b, a),
    decreases a.len(),
{
    if a.len() > 0 && b.len() > 0 {
        if a[0] == b[0] {
            lemma_text_order(a.skip(1), b.skip(1));
            if a.skip(1) == b.skip(1) {
                assert(a =~= seq![a[0]] + a.skip(1));
                assert(b =~= seq![b[0]] + b.skip(1));
            }
        }
    } else if a.len() == 0 && b.len() == 0 {
        assert(a =~= b);
    }
}

/// Dictionary order is transitive.
pub proof fn lemma_text_transitive(a: Seq<char>, b: Seq<char>, c: Seq<char>)
    requires
        text_less(a, b),
        text_less(b, c),
    ensures
        text_less(a, c),
    decreases a.len(),
{
    if a.len() > 0 && a[0] == b[0] && b[0] == c[0] {
        lemma_text_transitive(a.skip(1), b.skip(1), c.skip(1));
    }
}

/// Whether one string comes before another.
pub fn string_less(a: &str, b: &str) -> (r: bool)
    ensures
        r == text_less(a@, b@),
{
    let x = chars_of(a);
    let y = chars_of(b);
    let mut i: usize = 0;
    assert(x@.skip(0) =~= a@);
    assert(y@.skip(0) =~= b@);
    while i < x.len() && i < y.len()
        invariant
            i <= x@.len(),
            i <= y@.len(),
            text_less(x@.skip(i as int), y@.skip(i as int)) == text_less(a@, b@),
        decreases x@.len() - i,
    {
        assert(x@.skip(i as int)[0] == x@[i as int]);
        assert(y@.skip(i as int)[0] == y@[i as int]);
        if x[i] != y[i] {
            return x[i] < y[i];
        }
        assert(x@.skip(i as int).skip(1) =~= x@.skip(i + 1));
        assert(y@.skip(i as int).skip(1) =~= y@.skip(i + 1));
        i = i + 1;
    }
    i < y.len()
}

/// A sorted list of names with one more in it.
pub open spec fn insert_name(s: Seq<Seq<char>>, x: Seq<char>) -> Seq<Seq<char>>
    decreases s.len(),
{
    if s.len() == 0 {
        seq![x]
    } else if s[0] == x {
        s
    } else if text_less(x, s[0]) {
        seq![x] + s
    } else {
        seq![s[0]] + insert_name(s.skip(1), x)
    }
}

/// Where the names before `i` come before `x`, and the one at `i` is `x` or comes after it,
/// inserting `x` puts it at `i`.
pub proof fn lemma_insert_name(s: Seq<Seq<char>>, x: Seq<char>, i: int)
    requires
        0 <= i <= s.len(),
        forall|j: int| 0 <= j < i ==> text_less(#[trigger] s[j], x),
        i < s.len() ==> !text_less(s[i], x),
    ensures
        insert_name(s, x) == if i < s.len() && s[i] == x {
            s
        } else {
            s.take(i) + seq![x] + s.skip(i)
        },
    decreases i,
{
    if i == 0 {
        if s.len() > 0 {
            lemma_text_order(s[0], x);
        }
        assert(s.take(0) + seq![x] + s.skip(0) =~= seq![x] + s);
        if s.len() == 0 {
            assert(seq![x] + s =~= seq![x]);
        }
    } else {
        let t = s.skip(1);
        lemma_text_order(s[0], x);
        assert forall|j: int| 0 <= j < i - 1 implies text_less(#[trigger] t[j], x) by {
            assert(t[j] == s[j + 1]);
        }
        lemma_insert_name(t, x, i - 1);
        if i < s.len() && s[i] == x {
            assert(seq![s[0]] + t =~= s);
        } else {
            assert(seq![s[0]] + (t.take(i - 1) + seq![x] + t.skip(i - 1)) =~= s.take(i) + seq![x]
                + s.skip(i));
        }
    }
}

/// Inserting keeps a list of names strictly sorted, and adds just the one name.
pub proof fn lemma_insert_name_sorted(s: Seq<Seq<char>>, x: Seq<char>)
    requires
        names_sorted(s),
    ensures
        names_sorted(insert_name(s, x)),
        insert_name(s, x).contains(x),
        forall|y: Seq<char>|
            #![trigger insert_name(s, x).contains(y)]
            #![trigger s.contains(y)]
            insert_name(s, x).contains(y) <==> s.contains(y) || y == x,
    decreases s.len(),
{
    if s.len() == 0 {
        assert(insert_name(s, x)[0] == x);
    } else if s[0] == x {
        assert(s.contains(x));
    } else if text_less(x, s[0]) {
        let r = insert_name(s, x);
        assert(r =~= seq![x] + s);
        assert forall|i: int, j: int| 0 <= i < j < r.len() implies text_less(r[i], r[j]) by {
            if i == 0 {
                if j > 1 {
                    lemma_text_transitive(x, s[0], s[j - 1]);
                }
            }
        }
        assert(r[0] == x);
        assert forall|y: Seq<char>|
            #![trigger r.contains(y)]
            #![trigger s.contains(y)]
            r.contains(y) <==> s.contains(y) || y == x by {
            if s.contains(y) {
                let k = choose|k: int| 0 <= k < s.len() && s[k] == y;
                assert(r[k + 1] == y);
            }
            if r.contains(y) && y != x {
                let k = choose|k: int| 0 <= k < r.len() && r[k] == y;
                assert(s[k - 1] == y);
            }
        }
    } else {
        let t = s.skip(1);
        assert(names_sorted(t));
        lemma_text_order(s[0], x);
        lemma_insert_name_sorted(t, x);
        let q = insert_name(t, x);
        let r = insert_name(s, x);
        assert(r =~= seq![s[0]] + q);
        assert forall|i: int, j: int| 0 <= i < j < r.len() implies text_less(r[i], r[j]) by {
            if i == 0 {
                assert(q.contains(r[j])) by {
                    assert(q[j - 1] == r[j]);
                }
                if r[j] != x {
                    let k = choose|k: int| 0 <= k < t.len() && t[k] == r[j];
                    assert(s[k + 1] == r[j]);
                }
            }
        }
        assert(r.contains(x)) by {
            let k = choose|k: int| 0 <= k < q.len() && q[k] == x;
            assert(r[k + 1] == x);
        }
        assert forall|y: Seq<char>|
            #![trigger r.contains(y)]
            #![trigger s.contains(y)]
            r.contains(y) <==> s.contains(y) || y == x by {
            if s.contains(y) {
                let k = choose|k: int| 0 <= k < s.len() && s[k] == y;
                if k > 0 {
                    assert(t[k - 1] == y);
                    assert(q.contains(y));
                    let m = choose|m: int| 0 <= m < q.len() && q[m] == y;
                    assert(r[m + 1] == y);
                } else {
                    assert(r[0] == y);
                }
            }
            if r.contains(y) {
                let k = choose|k: int| 0 <= k < r.len() && r[k] == y;
                if k > 0 {
                    assert(q[k - 1] == y);
                    assert(q.contains(y));
                    if y != x {
                        let m = choose|m: int| 0 <= m < t.len() && t[m] == y;
                        assert(s[m + 1] == y);
                    }
                } else {
                    assert(s[0] == y);
                }
            }
        }
    }
}

/// Names in strict dictionary order.
pub open spec fn names_sorted(s: Seq<Seq<char>>) -> bool {
    forall|i: int, j: int| 0 <= i < j < s.len() ==> text_less(s[i], s[j])
}

/// The texts of a sequence of string slices.
pub open spec fn strs(v: Seq<&str>) -> Seq<Seq<char>> {
    Seq::new(v.len(), |i: int| v[i]@)
}

/// Names in dictionary order, each once.
pub open spec fn in_order(s: Seq<Seq<char>>) -> Seq<Seq<char>>
    decreases s.len(),
{
    if s.len() == 0 {
        Seq::empty()
    } else {
        insert_name(in_order(s.drop_last()), s.last())
    }
}

/// Sorts names, each once.
pub fn sorted_unique(names: &Vec<&str>) -> (r: Vec<String>)
    ensures
        Seq::new(r@.len(), |i: int| r@[i]@) == in_order(strs(names@)),
{
    let ghost all = strs(names@);
    let mut sorted: Vec<&str> = Vec::new();
    let mut i: usize = 0;
    assert(strs(sorted@) =~= in_order(all.take(0)));
    while i < names.len()
        invariant
            i <= names@.len(),
            all == strs(names@),
            strs(sorted@) == in_order(all.take(i as int)),
        decreases names@.len() - i,
    {
        let x: &str = names[i];
        assert(all.take(i + 1).drop_last() =~= all.take(i as int));
        assert(all.take(i + 1).last() == x@);
        let mut j: usize = 0;
        while j < sorted.len() && string_less(sorted[j], x)
            invariant
                j <= sorted@.len(),
                forall|k: int| 0 <= k < j ==> text_less(#[trigger] strs(sorted@)[k], x@),
            decreases sorted@.len() - j,
        {
            j = j + 1;
        }
        proof {
            lemma_insert_name(strs(sorted@), x@, j as int);
        }
        let ghost before = sorted@;
        if j == sorted.len() || !same_string(sorted[j], x) {
            sorted.insert(j, x);
            assert(strs(sorted@) =~= strs(before).take(j as int) + seq![x@] + strs(before).skip(
                j as int,
            ));
        }
        i = i + 1;
    }
    assert(all.take(all.len() as int) =~= all);
    let mut r: Vec<String> = Vec::new();
    let mut k: usize = 0;
    while k < sorted.len()
        invariant
            k <= sorted@.len(),
            Seq::new(r@.len(), |i: int| r@[i]@) == strs(sorted@).take(k as int),
        decreases sorted@.len() - k,
    {
        let ghost before = Seq::new(r@.len(), |i: int| r@[i]@);
        r.push(sorted[k].to_owned());
        assert(Seq::new(r@.len(), |i: int| r@[i]@) =~= before.push(sorted@[k as int]@));
        assert(strs(sorted@).take(k + 1) =~= strs(sorted@).take(k as int).push(
            sorted@[k as int]@,
        ));
        k = k + 1;
    }
    assert(strs(sorted@).take(sorted@.len() as int) =~= strs(sorted@));
    r
}

/// Sorted names stand in strict dictionary order, and are just those given.
pub proof fn law_sorted_unique(s: Seq<Seq<char>>)
    ensures
        names_sorted(in_order(s)),
        forall|x: Seq<char>| #[trigger] in_order(s).contains(x) <==> s.contains(x),
    decreases s.len(),
{
    if s.len() > 0 {
        let t = s.drop_last();
        law_sorted_unique(t);
        lemma_insert_name_sorted(in_order(t), s.last());
        assert forall|x: Seq<char>| #[trigger] in_order(s).contains(x) <==> s.contains(x) by {
            if s.contains(x) {
                let k = choose|k: int| 0 <= k < s.len() && s[k] == x;
                if k < t.len() {
                    assert(t[k] == x);
                    assert(t.contains(x));
                    assert(in_order(t).contains(x));
                }
            }
            if in_order(s).contains(x) && x != s.last() {
                assert(in_order(t).contains(x));
                let k = choose|k: int| 0 <= k < t.len() && t[k] == x;
                assert(s[k] == x);
            }
            assert(s[s.len() - 1] == s.last());
        }
    }
}

} // verus!
