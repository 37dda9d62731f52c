//! Character classes and token scanning shared by the grammars.

use vstd::prelude::*;

verus! {

/// An ASCII letter.
pub open spec fn is_alpha(c: char) -> bool {
    ('a' <= c && c <= 'z') || ('A' <= c && c <= 'Z')
}

/// An ASCII digit.
pub open spec fn is_digit(c: char) -> bool {
    '0' <= c && c <= '9'
}

/// A letter or a digit.
pub open spec fn is_let_dig(c: char) -> bool {
    is_alpha(c) || is_digit(c)
}

/// A letter, a digit or a hyphen.
pub open spec fn is_ldh(c: char) -> bool {
    is_let_dig(c) || c == '-'
}

/// A printable ASCII character other than the space (codes 33 to 126).
pub open spec fn is_graphic(c: char) -> bool {
    '!' <= c && c <= '~'
}

/// The position of the first `sep` in `s`, or the length of `s` where it holds none.
pub open spec fn index_of(s: Seq<char>, sep: char) -> int
    decreases s.len(),
{
    if s.len() == 0 || s[0] == sep {
        0
    } else {
        1 + index_of(s.drop_first(), sep)
    }
}

/// The part of `s` before its first `sep`: all of `s` where it holds none.
pub open spec fn head_before(s: Seq<char>, sep: char) -> Seq<char> {
    s.take(index_of(s, sep))
}

/// `index_of` is the least position that holds `sep`, and is the length where
/// there is no such position.
pub proof fn lemma_index_of(s: Seq<char>, sep: char)
    ensures
        0 <= index_of(s, sep) <= s.len(),
        index_of(s, sep) < s.len() ==> s[index_of(s, sep)] == sep,
        forall|j: int| 0 <= j < index_of(s, sep) ==> s[j] != sep,
    decreases s.len(),
{
    if s.len() == 0 || s[0] == sep {
    } else {
        let t = s.drop_first();
        lemma_index_of(t, sep);
        assert forall|j: int| 0 <= j < index_of(s, sep) implies s[j] != sep by {
            if j > 0 {
                assert(s[j] == t[j - 1]);
            }
        }
    }
}

/// A position that has no `sep` before it, and holds one unless it is the
/// length, is `index_of`.
pub proof fn lemma_index_of_unique(s: Seq<char>, sep: char, k: int)
    requires
        0 <= k <= s.len(),
        k < s.len() ==> s[k] == sep,
        forall|j: int| 0 <= j < k ==> s[j] != sep,
    ensures
        index_of(s, sep) == k,
{
    lemma_index_of(s, sep);
    let i = index_of(s, sep);
    if i < k {
        assert(s[i] == sep);
    } else if k < i {
        assert(s[k] == sep);
    }
}

/// The characters of `s`, one by one.
pub fn chars_of(s: &str) -> (cs: Vec<char>)
    ensures
        cs@ == s@,
{
    broadcast use vstd::string::group_string_axioms;

    let mut cs: Vec<char> = Vec::new();
    for c in it: s.chars()
        invariant
            it.seq() == s@,
            cs@ == s@.take(it.index()),
    {
        cs.push(c);
    }
    cs
}

/// The first position at or after `from` and before `to` that holds `sep`, or `to`.
pub fn find_char(cs: &Vec<char>, from: usize, to: usize, sep: char) -> (k: usize)
    requires
        from <= to <= cs@.len(),
    ensures
        from <= k <= to,
        k == from + index_of(cs@.subrange(from as int, to as int), sep),
{
    let mut k: usize = from;
    while k < to && cs[k] != sep
        invariant
            from <= k <= to <= cs@.len(),
            forall|j: int| from <= j < k ==> cs@[j] != sep,
        decreases to - k,
    {
        k += 1;
    }
    proof {
        lemma_index_of_unique(cs@.subrange(from as int, to as int), sep, k - from);
    }
    k
}

} // verus!
