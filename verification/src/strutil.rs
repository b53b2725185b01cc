//! Small executable string helpers with exact character-level contracts.

use vstd::prelude::*;

verus! {

/// The characters of a string, as a vector.
pub fn str_chars(s: &str) -> (r: Vec<char>)
    ensures
        r@ == s@,
{
    let n = s.unicode_len();
    let mut out: Vec<char> = Vec::new();
    let mut i: usize = 0;
    while i < n
        invariant
            i <= n,
            n == s@.len(),
            out@ =~= s@.take(i as int),
        decreases n - i,
    {
        let c = s.get_char(i);
        out.push(c);
        assert(out@ =~= s@.take(i + 1 as int));
        i = i + 1;
    }
    assert(out@ =~= s@);
    out
}

/// Index of the first occurrence of `c` in `s`, or `s.len()` if there is
/// none.
pub open spec fn first_index_of(s: Seq<char>, c: char) -> int
    decreases s.len(),
{
    if s.len() == 0 {
        0
    } else if s[0] == c {
        0
    } else {
        1 + first_index_of(s.drop_first(), c)
    }
}

/// The first occurrence is wherever `c` stands with no `c` before it.
pub proof fn lemma_first_index_at(s: Seq<char>, c: char, j: int)
    requires
        0 <= j < s.len(),
        s[j] == c,
        forall|i: int| 0 <= i < j ==> s[i] != c,
    ensures
        first_index_of(s, c) == j,
    decreases s.len(),
{
    if j == 0 {
    } else {
        assert(s[0] != c);
        assert(forall|i: int| 0 <= i < s.len() - 1 ==> s.drop_first()[i] == s[i + 1]);
        lemma_first_index_at(s.drop_first(), c, j - 1);
    }
}

/// With no occurrence at all, the first occurrence is the length.
pub proof fn lemma_first_index_none(s: Seq<char>, c: char)
    requires
        forall|i: int| 0 <= i < s.len() ==> s[i] != c,
    ensures
        first_index_of(s, c) == s.len(),
    decreases s.len(),
{
    if s.len() > 0 {
        assert(forall|i: int| 0 <= i < s.len() - 1 ==> s.drop_first()[i] == s[i + 1]);
        lemma_first_index_none(s.drop_first(), c);
    }
}

/// Scan for the first occurrence of `c` in `chars` at or after `from`.
pub fn scan_char(chars: &Vec<char>, from: usize, c: char) -> (r: usize)
    requires
        from <= chars@.len(),
    ensures
        from <= r <= chars@.len(),
        r - from == first_index_of(chars@.subrange(from as int, chars@.len() as int), c),
        r < chars@.len() ==> chars@[r as int] == c,
{
    let n = chars.len();
    let mut i = from;
    while i < n
        invariant
            from <= i <= n,
            n == chars@.len(),
            forall|q: int| from <= q < i ==> chars@[q] != c,
        decreases n - i,
    {
        if chars[i] == c {
            proof {
                let sub = chars@.subrange(from as int, n as int);
                assert(forall|q: int| 0 <= q < sub.len() ==> sub[q] == chars@[q + from]);
                lemma_first_index_at(sub, c, i - from);
            }
            return i;
        }
        i = i + 1;
    }
    proof {
        let sub = chars@.subrange(from as int, n as int);
        assert(forall|q: int| 0 <= q < sub.len() ==> sub[q] == chars@[q + from]);
        lemma_first_index_none(sub, c);
    }
    n
}

/// Character-for-character string equality.
pub fn str_eq(a: &str, b: &str) -> (r: bool)
    ensures
        r == (a@ == b@),
{
    let na = a.unicode_len();
    let nb = b.unicode_len();
    if na != nb {
        assert(a@ != b@) by {
            assert(a@.len() != b@.len());
        }
        return false;
    }
    let mut i: usize = 0;
    while i < na
        invariant
            i <= na,
            na == a@.len(),
            nb == b@.len(),
            na == nb,
            forall|j: int| 0 <= j < i ==> a@[j] == b@[j],
        decreases na - i,
    {
        if a.get_char(i) != b.get_char(i) {
            return false;
        }
        i = i + 1;
    }
    assert(a@ =~= b@);
    true
}

} // verus!
