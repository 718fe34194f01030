//! Text as sequences of characters: whitespace, splitting, decimal numbers.
use vstd::prelude::*;
use vstd::slice::slice_subrange;

verus! {

/// `String::push` of the standard library: appends one character.
pub assume_specification[ String::push ](s: &mut String, c: char)
    ensures
        final(s)@ == old(s)@.push(c),
;

/// Concatenation is associative; both nestings of a sum are the same text.
pub broadcast proof fn lemma_concat_assoc<A>(a: Seq<A>, b: Seq<A>, c: Seq<A>)
    ensures
        #[trigger] (a + (b + c)) == (a + b) + c,
{
    assert(a + (b + c) =~= (a + b) + c);
}

/// Appending nothing changes nothing.
pub broadcast proof fn lemma_concat_empty<A>(a: Seq<A>)
    ensures
        #[trigger] (a + Seq::<A>::empty()) == a,
{
    assert(a + Seq::<A>::empty() =~= a);
}

/// Nothing followed by a text is that text.
pub broadcast proof fn lemma_empty_concat<A>(a: Seq<A>)
    ensures
        #[trigger] (Seq::<A>::empty() + a) == a,
{
    assert(Seq::<A>::empty() + a =~= a);
}

pub broadcast group group_concat {
    lemma_concat_assoc,
    lemma_concat_empty,
    lemma_empty_concat,
}

/// The characters of the Unicode property `White_Space`.
pub open spec fn is_white(c: char) -> bool {
    ||| 0x9 <= c as int <= 0xd
    ||| c as int == 0x20
    ||| c as int == 0x85
    ||| c as int == 0xa0
    ||| c as int == 0x1680
    ||| 0x2000 <= c as int <= 0x200a
    ||| c as int == 0x2028
    ||| c as int == 0x2029
    ||| c as int == 0x202f
    ||| c as int == 0x205f
    ||| c as int == 0x3000
}

/// Whether `c` separates words.
pub fn white(c: char) -> (r: bool)
    ensures
        r == is_white(c),
{
    let n: u32 = c as u32;
    (0x9 <= n && n <= 0xd) || n == 0x20 || n == 0x85 || n == 0xa0 || n == 0x1680 || (0x2000 <= n
        && n <= 0x200a) || n == 0x2028 || n == 0x2029 || n == 0x202f || n == 0x205f || n == 0x3000
}

/// The characters of a string, in order.
pub fn chars_of(s: &str) -> (v: Vec<char>)
    ensures
        v@ == s@,
{
    let mut v: Vec<char> = Vec::new();
    for c in it: s.chars()
        invariant
            v@ == it.seq().take(it.index() as int),
            it.seq() == s@,
    {
        proof {
            assert(it.seq().take(it.index() as int).push(c) =~= it.seq().take(it.index() + 1));
        }
        v.push(c);
    }
    assert(s@.take(s@.len() as int) =~= s@);
    v
}

/// The string made of the given characters.
pub fn string_of(v: &[char]) -> (s: String)
    ensures
        s@ == v@,
{
    let mut s = String::new();
    let mut i: usize = 0;
    while i < v.len()
        invariant
            i <= v@.len(),
            s@ == v@.take(i as int),
        decreases v@.len() - i,
    {
        s.push(v[i]);
        proof {
            assert(v@.take(i as int).push(v@[i as int]) =~= v@.take(i + 1));
        }
        i = i + 1;
    }
    assert(v@.take(v@.len() as int) =~= v@);
    s
}

/// Whether two texts are the same.
pub fn same_text(a: &[char], b: &[char]) -> (r: bool)
    ensures
        r == (a@ == b@),
{
    if a.len() != b.len() {
        return false;
    }
    let mut i: usize = 0;
    while i < a.len()
        invariant
            i <= a@.len(),
            a@.len() == b@.len(),
            forall|j: int| 0 <= j < i ==> a@[j] == b@[j],
        decreases a@.len() - i,
    {
        if a[i] != b[i] {
            return false;
        }
        i = i + 1;
    }
    assert(a@ =~= b@);
    true
}

/// Whether the text equals the string `lit`.
pub fn is_text(a: &[char], lit: &str) -> (r: bool)
    ensures
        r == (a@ == lit@),
{
    let b = chars_of(lit);
    same_text(a, b.as_slice())
}

/// Whether two strings are the same.
pub fn same_string(a: &str, b: &str) -> (r: bool)
    ensures
        r == (a@ == b@),
{
    let x = chars_of(a);
    let y = chars_of(b);
    same_text(x.as_slice(), y.as_slice())
}

/// Whether `s` begins with `p`.
pub open spec fn starts_with(s: Seq<char>, p: Seq<char>) -> bool {
    p.len() <= s.len() && s.take(p.len() as int) == p
}

/// Whether the text begins with the string `lit`.
pub fn has_prefix(a: &[char], lit: &str) -> (r: bool)
    ensures
        r == starts_with(a@, lit@),
{
    let p = chars_of(lit);
    if p.len() > a.len() {
        return false;
    }
    same_text(slice_subrange(a, 0, p.len()), p.as_slice())
}

/// What is left of the text behind the string `lit`, where it begins with it.
pub fn strip_prefix<'a>(a: &'a [char], lit: &str) -> (r: Option<&'a [char]>)
    ensures
        r is Some <==> starts_with(a@, lit@),
        r matches Some(t) ==> t@ == a@.skip(lit@.len() as int),
{
    if has_prefix(a, lit) {
        let n: usize = chars_of(lit).len();
        Some(slice_subrange(a, n, a.len()))
    } else {
        None
    }
}

/// The text without leading whitespace.
pub open spec fn trim_start(s: Seq<char>) -> Seq<char>
    decreases s.len(),
{
    if s.len() > 0 && is_white(s[0]) {
        trim_start(s.skip(1))
    } else {
        s
    }
}

/// The text without trailing whitespace.
pub open spec fn trim_end(s: Seq<char>) -> Seq<char>
    decreases s.len(),
{
    if s.len() > 0 && is_white(s.last()) {
        trim_end(s.drop_last())
    } else {
        s
    }
}

/// The text without surrounding whitespace.
pub open spec fn trim(s: Seq<char>) -> Seq<char> {
    trim_end(trim_start(s))
}

/// Removes leading whitespace.
pub fn trimmed_start(s: &[char]) -> (r: &[char])
    ensures
        r@ == trim_start(s@),
{
    let mut i: usize = 0;
    assert(s@.skip(0) =~= s@);
    while i < s.len() && white(s[i])
        invariant
            i <= s@.len(),
            trim_start(s@.skip(i as int)) == trim_start(s@),
        decreases s@.len() - i,
    {
        proof {
            assert(s@.skip(i as int).skip(1) =~= s@.skip(i + 1));
        }
        i = i + 1;
    }
    slice_subrange(s, i, s.len())
}

/// Removes trailing whitespace.
pub fn trimmed_end(s: &[char]) -> (r: &[char])
    ensures
        r@ == trim_end(s@),
{
    let mut i: usize = s.len();
    assert(s@.take(i as int) =~= s@);
    while i > 0 && white(s[i - 1])
        invariant
            i <= s@.len(),
            trim_end(s@.take(i as int)) == trim_end(s@),
        decreases i,
    {
        proof {
            assert(s@.take(i as int).drop_last() =~= s@.take(i - 1));
        }
        i = i - 1;
    }
    slice_subrange(s, 0, i)
}

/// Removes surrounding whitespace.
pub fn trimmed(s: &[char]) -> (r: &[char])
    ensures
        r@ == trim(s@),
{
    trimmed_end(trimmed_start(s))
}

/// Where `c` first occurs, or the length of the text where it does not.
pub open spec fn find(s: Seq<char>, c: char) -> int
    decreases s.len(),
{
    if s.len() == 0 || s[0] == c {
        0
    } else {
        1 + find(s.skip(1), c)
    }
}

/// `find` is within the text, at the first occurrence.
pub proof fn lemma_find(s: Seq<char>, c: char)
    ensures
        0 <= find(s, c) <= s.len(),
        forall|j: int| 0 <= j < find(s, c) ==> s[j] != c,
        find(s, c) < s.len() ==> s[find(s, c)] == c,
    decreases s.len(),
{
    if s.len() > 0 && s[0] != c {
        lemma_find(s.skip(1), c);
        assert forall|j: int| 0 <= j < find(s, c) implies s[j] != c by {
            if j > 0 {
                assert(s.skip(1)[j - 1] == s[j]);
            }
        }
    }
}

/// Where `c` first occurs.
pub fn find_char(s: &[char], c: char) -> (r: usize)
    ensures
        r == find(s@, c),
        r <= s@.len(),
{
    let mut i: usize = 0;
    proof {
        lemma_find(s@, c);
    }
    while i < s.len() && s[i] != c
        invariant
            i <= s@.len(),
            forall|j: int| 0 <= j < i ==> s@[j] != c,
            0 <= find(s@, c) <= s@.len(),
            i <= find(s@, c),
            find(s@, c) < s@.len() ==> s@[find(s@, c)] == c,
            forall|j: int| 0 <= j < find(s@, c) ==> s@[j] != c,
        decreases s@.len() - i,
    {
        i = i + 1;
    }
    i
}

/// The pieces of the text between the occurrences of `c`.
pub open spec fn split(s: Seq<char>, c: char) -> Seq<Seq<char>>
    decreases s.len(),
    via split_decreases
{
    let i = find(s, c);
    if i < s.len() {
        seq![s.take(i)] + split(s.skip(i + 1), c)
    } else {
        seq![s]
    }
}

#[via_fn]
proof fn split_decreases(s: Seq<char>, c: char) {
    lemma_find(s, c);
}

/// The texts of a vector of slices.
pub open spec fn texts(v: Seq<&[char]>) -> Seq<Seq<char>> {
    Seq::new(v.len(), |i: int| v[i]@)
}

/// Splits the text at each occurrence of `c`.
pub fn split_at_char<'a>(s: &'a [char], c: char) -> (v: Vec<&'a [char]>)
    ensures
        texts(v@) == split(s@, c),
        v@.len() > 0,
{
    let mut v: Vec<&'a [char]> = Vec::new();
    let mut rest: &'a [char] = s;
    assert(texts(v@) + split(rest@, c) =~= split(s@, c));
    loop
        invariant_except_break
            texts(v@) + split(rest@, c) == split(s@, c),
        ensures
            texts(v@) == split(s@, c),
            v@.len() > 0,
        decreases rest@.len(),
    {
        let i: usize = find_char(rest, c);
        let ghost before = v@;
        if i < rest.len() {
            let piece: &'a [char] = slice_subrange(rest, 0, i);
            let next: &'a [char] = slice_subrange(rest, i + 1, rest.len());
            v.push(piece);
            proof {
                assert(piece@ =~= rest@.take(i as int));
                assert(next@ =~= rest@.skip(i + 1));
                assert(texts(v@) =~= texts(before) + seq![piece@]);
                assert(texts(before) + (seq![piece@] + split(next@, c)) =~= texts(v@) + split(
                    next@,
                    c,
                ));
            }
            rest = next;
        } else {
            v.push(rest);
            proof {
                assert(texts(v@) =~= texts(before) + seq![rest@]);
            }
            break;
        }
    }
    v
}

/// The lines of a text: each ends before a line feed, less one carriage return
/// before it; what follows the last line feed is a line unless it is empty.
pub open spec fn lines(s: Seq<char>) -> Seq<Seq<char>>
    decreases s.len(),
    via lines_decreases
{
    let i = find(s, '\n');
    if s.len() == 0 {
        Seq::empty()
    } else if i < s.len() {
        seq![strip_return(s.take(i))] + lines(s.skip(i + 1))
    } else {
        seq![s]
    }
}

#[via_fn]
proof fn lines_decreases(s: Seq<char>) {
    lemma_find(s, '\n');
}

/// The text without one carriage return at its end.
pub open spec fn strip_return(s: Seq<char>) -> Seq<char> {
    if s.len() > 0 && s.last() == '\r' {
        s.drop_last()
    } else {
        s
    }
}

/// Whether a text ends where a line ends.
pub open spec fn whole_lines(s: Seq<char>) -> bool {
    s.len() == 0 || s.last() == '\n'
}

/// The lines of two texts, the first of whole lines, one after the other.
pub proof fn lemma_lines_concat(a: Seq<char>, b: Seq<char>)
    requires
        whole_lines(a),
    ensures
        lines(a + b) == lines(a) + lines(b),
    decreases a.len(),
{
    if a.len() == 0 {
        assert(a + b =~= b);
        assert(lines(a) + lines(b) =~= lines(b));
    } else {
        let i = find(a, '\n');
        let j = find(a + b, '\n');
        lemma_find(a, '\n');
        lemma_find(a + b, '\n');
        assert(a[a.len() - 1] == '\n');
        assert((a + b)[i] == a[i]);
        if j < i {
            assert((a + b)[j] == a[j]);
        }
        assert(i == j);
        let rest = a.skip(i + 1);
        assert((a + b).take(i) =~= a.take(i));
        assert((a + b).skip(i + 1) =~= rest + b);
        if rest.len() > 0 {
            assert(rest.last() == a.last());
        }
        lemma_lines_concat(rest, b);
        assert(lines(a + b) == seq![strip_return(a.take(i))] + lines(rest + b));
        assert(lines(a + b) =~= lines(a) + lines(b));
    }
}

/// Splits a text into its lines.
pub fn lines_of<'a>(s: &'a [char]) -> (v: Vec<&'a [char]>)
    ensures
        texts(v@) == lines(s@),
{
    let mut v: Vec<&'a [char]> = Vec::new();
    let mut rest: &'a [char] = s;
    assert(texts(v@) + lines(rest@) =~= lines(s@));
    while rest.len() > 0
        invariant
            texts(v@) + lines(rest@) == lines(s@),
        decreases rest@.len(),
    {
        let i: usize = find_char(rest, '\n');
        let ghost before = v@;
        if i < rest.len() {
            let end: usize = if i > 0 && rest[i - 1] == '\r' {
                i - 1
            } else {
                i
            };
            let piece: &'a [char] = slice_subrange(rest, 0, end);
            let next: &'a [char] = slice_subrange(rest, i + 1, rest.len());
            v.push(piece);
            proof {
                assert(piece@ =~= strip_return(rest@.take(i as int)));
                assert(next@ =~= rest@.skip(i + 1));
                assert(texts(v@) =~= texts(before) + seq![piece@]);
                assert(texts(before) + (seq![piece@] + lines(next@)) =~= texts(v@) + lines(next@));
            }
            rest = next;
        } else {
            v.push(rest);
            let next: &'a [char] = slice_subrange(rest, rest.len(), rest.len());
            proof {
                assert(texts(v@) =~= texts(before) + seq![rest@]);
                assert(lines(next@) =~= Seq::empty());
                assert(texts(v@) + lines(next@) =~= texts(v@));
            }
            rest = next;
        }
    }
    assert(texts(v@) + lines(rest@) =~= texts(v@));
    v
}

/// How many characters come before the first whitespace.
pub open spec fn word_len(s: Seq<char>) -> int
    decreases s.len(),
{
    if s.len() == 0 || is_white(s[0]) {
        0
    } else {
        1 + word_len(s.skip(1))
    }
}

pub proof fn lemma_word_len(s: Seq<char>)
    ensures
        0 <= word_len(s) <= s.len(),
        forall|j: int| 0 <= j < word_len(s) ==> !is_white(s[j]),
        word_len(s) < s.len() ==> is_white(s[word_len(s)]),
    decreases s.len(),
{
    if s.len() > 0 && !is_white(s[0]) {
        lemma_word_len(s.skip(1));
        assert forall|j: int| 0 <= j < word_len(s) implies !is_white(s[j]) by {
            if j > 0 {
                assert(s.skip(1)[j - 1] == s[j]);
            }
        }
    }
}

pub proof fn lemma_trim_start_len(s: Seq<char>)
    ensures
        trim_start(s).len() <= s.len(),
        trim_start(s).len() > 0 ==> !is_white(trim_start(s)[0]),
    decreases s.len(),
{
    if s.len() > 0 && is_white(s[0]) {
        lemma_trim_start_len(s.skip(1));
    }
}

/// The maximal runs of characters that are not whitespace.
pub open spec fn words(s: Seq<char>) -> Seq<Seq<char>>
    decreases s.len(),
    via words_decreases
{
    let t = trim_start(s);
    if t.len() == 0 {
        Seq::empty()
    } else {
        seq![t.take(word_len(t))] + words(t.skip(word_len(t)))
    }
}

#[via_fn]
proof fn words_decreases(s: Seq<char>) {
    lemma_trim_start_len(s);
    lemma_word_len(trim_start(s));
}

/// Splits a text at whitespace.
pub fn words_of<'a>(s: &'a [char]) -> (v: Vec<&'a [char]>)
    ensures
        texts(v@) == words(s@),
{
    let mut v: Vec<&'a [char]> = Vec::new();
    let mut rest: &'a [char] = trimmed_start(s);
    proof {
        lemma_words_trim(s@);
        assert(texts(v@) + words(rest@) =~= words(s@));
        lemma_trim_start_len(s@);
    }
    while rest.len() > 0
        invariant
            texts(v@) + words(rest@) == words(s@),
            rest@.len() > 0 ==> !is_white(rest@[0]),
        decreases rest@.len(),
    {
        let mut i: usize = 0;
        proof {
            lemma_word_len(rest@);
        }
        while i < rest.len() && !white(rest[i])
            invariant
                i <= word_len(rest@) <= rest@.len(),
                forall|j: int| 0 <= j < word_len(rest@) ==> !is_white(rest@[j]),
                word_len(rest@) < rest@.len() ==> is_white(rest@[word_len(rest@)]),
            decreases rest@.len() - i,
        {
            i = i + 1;
        }
        let ghost before = v@;
        let piece: &'a [char] = slice_subrange(rest, 0, i);
        let tail: &'a [char] = slice_subrange(rest, i, rest.len());
        let next: &'a [char] = trimmed_start(tail);
        v.push(piece);
        proof {
            assert(trim_start(rest@) == rest@);
            assert(piece@ =~= rest@.take(i as int));
            assert(tail@ =~= rest@.skip(i as int));
            lemma_words_trim(tail@);
            lemma_trim_start_len(tail@);
            assert(texts(v@) =~= texts(before) + seq![piece@]);
            assert(texts(before) + (seq![piece@] + words(tail@)) =~= texts(v@) + words(next@));
        }
        rest = next;
    }
    assert(texts(v@) + words(rest@) =~= texts(v@));
    v
}

/// Leading whitespace does not change the words of a text.
pub proof fn lemma_words_trim(s: Seq<char>)
    ensures
        words(trim_start(s)) == words(s),
    decreases s.len(),
{
    lemma_trim_start_len(s);
    assert(trim_start(trim_start(s)) == trim_start(s));
}

proof fn lemma_trim_end_kept(s: Seq<char>)
    ensures
        trim_end(s).len() <= s.len(),
        trim_end(s) == s.take(trim_end(s).len() as int),
        trim_end(s).len() > 0 ==> !is_white(trim_end(s).last()),
    decreases s.len(),
{
    if s.len() > 0 && is_white(s.last()) {
        lemma_trim_end_kept(s.drop_last());
        let n = trim_end(s).len() as int;
        assert(s.drop_last().take(n) =~= s.take(n));
    } else {
        assert(s.take(s.len() as int) =~= s);
    }
}

/// Removing surrounding whitespace a second time changes nothing.
pub proof fn lemma_trim_twice(s: Seq<char>)
    ensures
        trim(trim(s)) == trim(s),
{
    let a = trim_start(s);
    lemma_trim_start_len(s);
    lemma_trim_end_kept(a);
    let b = trim_end(a);
    if b.len() > 0 {
        assert(b[0] == a[0]);
    }
    assert(trim_start(b) == b);
    assert(trim_end(b) == b);
}

} // verus!
