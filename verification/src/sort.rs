//! Sorting of measured values.
use vstd::prelude::*;
use vstd::slice::slice_subrange;

verus! {

/// Whether values ascend.
pub open spec fn ascending(s: Seq<u64>) -> bool {
    forall|i: int, j: int| 0 <= i <= j < s.len() ==> s[i] <= s[j]
}

/// The same values in ascending order.
pub open spec fn arranged(s: Seq<u64>) -> Seq<u64> {
    s.sort_by(|x: u64, y: u64| x <= y)
}

/// Values in ascending order are determined by how often each occurs.
pub proof fn lemma_arranged(s: Seq<u64>)
    ensures
        ascending(arranged(s)),
        arranged(s).to_multiset() == s.to_multiset(),
        arranged(s).len() == s.len(),
        forall|r: Seq<u64>| #[trigger]
            ascending(r) && r.to_multiset() == s.to_multiset() ==> r == arranged(s),
{
    broadcast use vstd::seq_lib::group_to_multiset_ensures;
    let leq = |x: u64, y: u64| x <= y;
    s.lemma_sort_by_ensures(leq);
    let t = arranged(s);
    assert forall|i: int, j: int| 0 <= i <= j < t.len() implies t[i] <= t[j] by {
        if i < j {
            assert(leq(t[i], t[j]));
        }
    }
    assert(t.len() == t.to_multiset().len());
    assert(s.len() == s.to_multiset().len());
    assert forall|r: Seq<u64>| #[trigger]
        ascending(r) && r.to_multiset() == s.to_multiset() implies r == t by {
        vstd::seq_lib::lemma_sorted_unique(r, t, leq);
    }
}

proof fn lemma_push_multiset(s: Seq<u64>, x: u64)
    ensures
        s.push(x).to_multiset() == s.to_multiset().insert(x),
{
    broadcast use vstd::seq_lib::group_to_multiset_ensures;
    assert(s.push(x).to_multiset() =~= s.to_multiset().insert(x));
}

fn merge(a: &Vec<u64>, b: &Vec<u64>) -> (r: Vec<u64>)
    requires
        ascending(a@),
        ascending(b@),
    ensures
        ascending(r@),
        r@.to_multiset() == a@.to_multiset().add(b@.to_multiset()),
{
    let mut r: Vec<u64> = Vec::new();
    let mut i: usize = 0;
    let mut j: usize = 0;
    proof {
        broadcast use vstd::seq_lib::group_to_multiset_ensures;
        assert(a@.take(0) =~= Seq::empty());
        assert(b@.take(0) =~= Seq::empty());
        assert(r@.to_multiset() =~= a@.take(0).to_multiset().add(b@.take(0).to_multiset()));
    }
    while i < a.len() || j < b.len()
        invariant
            i <= a@.len(),
            j <= b@.len(),
            ascending(a@),
            ascending(b@),
            ascending(r@),
            forall|k: int, m: int| 0 <= k < r@.len() && i <= m < a@.len() ==> r@[k] <= a@[m],
            forall|k: int, m: int| 0 <= k < r@.len() && j <= m < b@.len() ==> r@[k] <= b@[m],
            r@.to_multiset() == a@.take(i as int).to_multiset().add(
                b@.take(j as int).to_multiset(),
            ),
        decreases a@.len() - i + b@.len() - j,
    {
        let ghost before = r@;
        if j >= b.len() || (i < a.len() && a[i] <= b[j]) {
            r.push(a[i]);
            proof {
                lemma_push_multiset(before, a@[i as int]);
                lemma_push_multiset(a@.take(i as int), a@[i as int]);
                assert(a@.take(i + 1) =~= a@.take(i as int).push(a@[i as int]));
                assert(r@.to_multiset() =~= a@.take(i + 1).to_multiset().add(
                    b@.take(j as int).to_multiset(),
                ));
            }
            i = i + 1;
        } else {
            r.push(b[j]);
            proof {
                lemma_push_multiset(before, b@[j as int]);
                lemma_push_multiset(b@.take(j as int), b@[j as int]);
                assert(b@.take(j + 1) =~= b@.take(j as int).push(b@[j as int]));
                assert(r@.to_multiset() =~= a@.take(i as int).to_multiset().add(
                    b@.take(j + 1).to_multiset(),
                ));
            }
            j = j + 1;
        }
    }
    assert(a@.take(a@.len() as int) =~= a@);
    assert(b@.take(b@.len() as int) =~= b@);
    r
}

/// The same values in ascending order.
pub fn sorted_values(v: &[u64]) -> (r: Vec<u64>)
    ensures
        r@ == arranged(v@),
{
    let r = merge_sorted(v);
    proof {
        lemma_arranged(v@);
    }
    r
}

fn merge_sorted(v: &[u64]) -> (r: Vec<u64>)
    ensures
        ascending(r@),
        r@.to_multiset() == v@.to_multiset(),
    decreases v@.len(),
{
    let n: usize = v.len();
    if n <= 1 {
        let mut r: Vec<u64> = Vec::new();
        if n == 1 {
            r.push(v[0]);
        }
        assert(r@ =~= v@);
        return r;
    }
    let mid: usize = n / 2;
    let left = slice_subrange(v, 0, mid);
    let right = slice_subrange(v, mid, n);
    let a = merge_sorted(left);
    let b = merge_sorted(right);
    let r = merge(&a, &b);
    proof {
        assert(v@ =~= left@ + right@);
        vstd::seq_lib::lemma_multiset_commutative(left@, right@);
    }
    r
}

} // verus!
