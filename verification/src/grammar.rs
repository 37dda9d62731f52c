//! The grammars of the tokens of an `EHLO` exchange, each as a predicate on a
//! sequence of characters with an executable check of it.

use vstd::prelude::*;
use crate::text::{is_let_dig, is_ldh, is_graphic};

verus! {

/// An ESMTP keyword: a letter or digit, then letters, digits and hyphens.
pub open spec fn is_keyword(s: Seq<char>) -> bool {
    &&& s.len() > 0
    &&& is_let_dig(s[0])
    &&& forall|i: int| 0 <= i < s.len() ==> is_ldh(#[trigger] s[i])
}

/// A parameter of a capability: one or more printable characters, none a space.
pub open spec fn is_param(s: Seq<char>) -> bool {
    &&& s.len() > 0
    &&& forall|i: int| 0 <= i < s.len() ==> is_graphic(#[trigger] s[i])
}

/// A domain name: labels of letters, digits and hyphens, separated by single
/// dots, each label beginning and ending with a letter or digit.
pub open spec fn is_domain(s: Seq<char>) -> bool {
    &&& s.len() > 0
    &&& is_let_dig(s[0])
    &&& is_let_dig(s[s.len() - 1])
    &&& forall|i: int| 0 <= i < s.len() ==> is_ldh(#[trigger] s[i]) || s[i] == '.'
    &&& forall|i: int|
        0 < i < s.len() - 1 && #[trigger] s[i] == '.' ==> is_let_dig(s[i - 1]) && is_let_dig(
            s[i + 1],
        )
}

/// A character allowed between the brackets of an address literal.
pub open spec fn is_literal_char(c: char) -> bool {
    is_graphic(c) && c != '[' && c != '\\' && c != ']'
}

/// An address literal: a non-empty run of literal characters in square brackets.
pub open spec fn is_address_literal(s: Seq<char>) -> bool {
    &&& s.len() >= 3
    &&& s[0] == '['
    &&& s[s.len() - 1] == ']'
    &&& forall|i: int| 0 < i < s.len() - 1 ==> is_literal_char(#[trigger] s[i])
}

/// The upper-case form of an ASCII letter; any other character unchanged.
pub open spec fn upper_char(c: char) -> char {
    if 'a' <= c && c <= 'z' {
        ((c as u8 - 32) as u8) as char
    } else {
        c
    }
}

/// `s` with each ASCII lower-case letter replaced by its upper-case form.
pub open spec fn upper(s: Seq<char>) -> Seq<char> {
    Seq::new(s.len(), |i: int| upper_char(s[i]))
}

/// The keyword `AUTH`.
pub open spec fn auth_keyword() -> Seq<char> {
    seq!['A', 'U', 'T', 'H']
}

/// Whether `c` is a letter or a digit.
pub fn char_is_let_dig(c: char) -> (r: bool)
    ensures
        r == is_let_dig(c),
{
    ('a' <= c && c <= 'z') || ('A' <= c && c <= 'Z') || ('0' <= c && c <= '9')
}

/// Whether `c` is a letter, a digit or a hyphen.
pub fn char_is_ldh(c: char) -> (r: bool)
    ensures
        r == is_ldh(c),
{
    char_is_let_dig(c) || c == '-'
}

/// Whether the characters of `cs` from `from` up to `to` form a keyword.
pub fn check_keyword(cs: &Vec<char>, from: usize, to: usize) -> (r: bool)
    requires
        from <= to <= cs@.len(),
    ensures
        r == is_keyword(cs@.subrange(from as int, to as int)),
{
    let ghost s = cs@.subrange(from as int, to as int);
    if from == to || !char_is_let_dig(cs[from]) {
        assert(s.len() > 0 ==> s[0] == cs@[from as int]);
        return false;
    }
    let mut i: usize = from;
    while i < to
        invariant
            from <= i <= to <= cs@.len(),
            s == cs@.subrange(from as int, to as int),
            forall|j: int| 0 <= j < i - from ==> is_ldh(#[trigger] s[j]),
        decreases to - i,
    {
        if !char_is_ldh(cs[i]) {
            assert(s[i - from] == cs@[i as int]);
            return false;
        }
        assert(s[i - from] == cs@[i as int]);
        i += 1;
    }
    assert(s[0] == cs@[from as int]);
    true
}

/// Whether the characters of `cs` from `from` up to `to` form a parameter.
pub fn check_param(cs: &Vec<char>, from: usize, to: usize) -> (r: bool)
    requires
        from <= to <= cs@.len(),
    ensures
        r == is_param(cs@.subrange(from as int, to as int)),
{
    let ghost s = cs@.subrange(from as int, to as int);
    if from == to {
        return false;
    }
    let mut i: usize = from;
    while i < to
        invariant
            from <= i <= to <= cs@.len(),
            s == cs@.subrange(from as int, to as int),
            forall|j: int| 0 <= j < i - from ==> is_graphic(#[trigger] s[j]),
        decreases to - i,
    {
        let c = cs[i];
        assert(s[i - from] == c);
        if !('!' <= c && c <= '~') {
            return false;
        }
        i += 1;
    }
    true
}

/// Whether the characters of `cs` from `from` up to `to` form a domain name.
pub fn check_domain(cs: &Vec<char>, from: usize, to: usize) -> (r: bool)
    requires
        from <= to <= cs@.len(),
    ensures
        r == is_domain(cs@.subrange(from as int, to as int)),
{
    let ghost s = cs@.subrange(from as int, to as int);
    if from == to {
        return false;
    }
    assert(s[0] == cs@[from as int]);
    assert(s[s.len() - 1] == cs@[to - 1]);
    if !char_is_let_dig(cs[from]) || !char_is_let_dig(cs[to - 1]) {
        return false;
    }
    let mut i: usize = from;
    while i < to
        invariant
            from <= i <= to <= cs@.len(),
            s == cs@.subrange(from as int, to as int),
            is_let_dig(s[0]),
            is_let_dig(s[s.len() - 1]),
            forall|j: int| 0 <= j < i - from ==> is_ldh(#[trigger] s[j]) || s[j] == '.',
            forall|j: int|
                0 < j < i - from && j < s.len() - 1 && #[trigger] s[j] == '.' ==> is_let_dig(
                    s[j - 1],
                ) && is_let_dig(s[j + 1]),
        decreases to - i,
    {
        let c = cs[i];
        assert(s[i - from] == c);
        if c == '.' {
            // the first and the last character are no dots, so both neighbours exist
            assert(from < i && i < to - 1);
            assert(s[i - from - 1] == cs@[i - 1]);
            assert(s[i - from + 1] == cs@[i + 1]);
            if !char_is_let_dig(cs[i - 1]) || !char_is_let_dig(cs[i + 1]) {
                return false;
            }
        } else if !char_is_ldh(c) {
            return false;
        }
        i += 1;
    }
    true
}

/// Whether the characters of `cs` from `from` up to `to` form an address literal.
pub fn check_address_literal(cs: &Vec<char>, from: usize, to: usize) -> (r: bool)
    requires
        from <= to <= cs@.len(),
    ensures
        r == is_address_literal(cs@.subrange(from as int, to as int)),
{
    let ghost s = cs@.subrange(from as int, to as int);
    if to - from < 3 {
        return false;
    }
    assert(s[0] == cs@[from as int]);
    assert(s[s.len() - 1] == cs@[to - 1]);
    if cs[from] != '[' || cs[to - 1] != ']' {
        return false;
    }
    let mut i: usize = from + 1;
    while i < to - 1
        invariant
            from < i <= to - 1,
            to <= cs@.len(),
            s == cs@.subrange(from as int, to as int),
            forall|j: int| 0 < j < i - from ==> is_literal_char(#[trigger] s[j]),
        decreases to - i,
    {
        let c = cs[i];
        assert(s[i - from] == c);
        if !('!' <= c && c <= '~') || c == '[' || c == '\\' || c == ']' {
            return false;
        }
        i += 1;
    }
    true
}

/// Whether the characters of `cs` from `from` up to `to` spell `AUTH`, in
/// either case of each letter.
pub fn check_auth(cs: &Vec<char>, from: usize, to: usize) -> (r: bool)
    requires
        from <= to <= cs@.len(),
    ensures
        r == (upper(cs@.subrange(from as int, to as int)) == auth_keyword()),
{
    let ghost s = cs@.subrange(from as int, to as int);
    let ghost u = upper(s);
    if to - from != 4 {
        assert(u.len() != auth_keyword().len());
        return false;
    }
    assert(s[0] == cs@[from as int] && s[1] == cs@[from + 1] && s[2] == cs@[from + 2] && s[3]
        == cs@[from + 3]);
    assert(u[0] == upper_char(s[0]) && u[1] == upper_char(s[1]) && u[2] == upper_char(s[2])
        && u[3] == upper_char(s[3]));
    let r = (cs[from] == 'A' || cs[from] == 'a') && (cs[from + 1] == 'U' || cs[from + 1] == 'u')
        && (cs[from + 2] == 'T' || cs[from + 2] == 't') && (cs[from + 3] == 'H' || cs[from + 3]
        == 'h');
    assert(auth_keyword()[0] == 'A' && auth_keyword()[1] == 'U' && auth_keyword()[2] == 'T'
        && auth_keyword()[3] == 'H');
    assert(r ==> u =~= auth_keyword());
    r
}

} // verus!
