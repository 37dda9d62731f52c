//! What the lines of a reply to `EHLO` mean, and the reading of one line.

use vstd::prelude::*;
use vstd::string::StrSliceExecFns;
use crate::data_types::{lemma_upper_keyword, params_view, Capability, EhloParam, SyntaxError};
use crate::ehlo_data::{Capabilities, EhloDataView};
use crate::grammar::{auth_keyword, check_auth, is_domain, is_keyword, is_param, upper};
use crate::text::{chars_of, find_char, head_before, index_of, lemma_index_of_unique};

verus! {

/// The pieces of `s` between its separators `sep`, in their order. There is
/// always one piece at least, and a piece may be empty.
pub open spec fn split_on(s: Seq<char>, sep: char) -> Seq<Seq<char>>
    decreases s.len(),
{
    let k = index_of(s, sep);
    if 0 <= k < s.len() {
        seq![s.take(k)] + split_on(s.skip(k + 1), sep)
    } else {
        seq![s]
    }
}

/// What one line after the first says.
pub ghost enum LineMeaning {
    /// Nothing: the line is passed over.
    Ignored,
    /// A capability, its keyword in upper case, with its parameters.
    Entry { keyword: Seq<char>, params: Seq<Seq<char>> },
    /// The line breaks a grammar.
    Malformed(SyntaxError),
}

/// Whether a token that is no keyword is the `AUTH=...` form that some
/// servers send beside a well-formed `AUTH` line: what stands before its
/// first `=` reads `AUTH` in any case of the letters.
pub open spec fn is_legacy_auth(token: Seq<char>) -> bool {
    upper(head_before(token, '=')) == auth_keyword()
}

/// The meaning of a line after the first. The line is cut at its spaces. The
/// first piece is the keyword and the others are its parameters; a first
/// piece that is no keyword is passed over with its line if it is the legacy
/// form of `AUTH`.
pub open spec fn line_meaning(line: Seq<char>) -> LineMeaning {
    let tokens = split_on(line, ' ');
    if !is_keyword(tokens[0]) {
        if is_legacy_auth(tokens[0]) {
            LineMeaning::Ignored
        } else {
            LineMeaning::Malformed(SyntaxError::EsmtpKeyword)
        }
    } else if forall|i: int| 1 <= i < tokens.len() ==> is_param(#[trigger] tokens[i]) {
        LineMeaning::Entry { keyword: upper(tokens[0]), params: tokens.skip(1) }
    } else {
        LineMeaning::Malformed(SyntaxError::EsmtpValue)
    }
}

/// The capabilities that the lines announce, read in their order: a later
/// line for a keyword replaces an earlier one, and the first malformed line
/// decides the error.
pub open spec fn capabilities_of(lines: Seq<Seq<char>>) -> Result<Capabilities, SyntaxError>
    decreases lines.len(),
{
    if lines.len() == 0 {
        Ok(Map::empty())
    } else {
        match capabilities_of(lines.drop_last()) {
            Err(e) => Err(e),
            Ok(m) => match line_meaning(lines.last()) {
                LineMeaning::Ignored => Ok(m),
                LineMeaning::Entry { keyword, params } => Ok(m.insert(keyword, params)),
                LineMeaning::Malformed(e) => Err(e),
            },
        }
    }
}

/// The meaning of a whole reply. The first line begins with the server's
/// name, which ends at the first space; the other lines announce capabilities.
pub open spec fn reply_meaning(lines: Seq<Seq<char>>) -> Result<EhloDataView, SyntaxError>
    recommends
        lines.len() > 0,
{
    let domain = head_before(lines[0], ' ');
    if !is_domain(domain) {
        Err(SyntaxError::Domain)
    } else {
        match capabilities_of(lines.skip(1)) {
            Ok(capabilities) => Ok(EhloDataView { domain, capabilities }),
            Err(e) => Err(e),
        }
    }
}

/// A domain name holds no space, so it ends where the text ends.
pub proof fn lemma_domain_has_no_space(domain: Seq<char>)
    requires
        is_domain(domain),
    ensures
        head_before(domain, ' ') == domain,
{
    lemma_index_of_unique(domain, ' ', domain.len() as int);
    assert(domain.take(domain.len() as int) == domain);
}

/// A reply of one line that is a domain name means that name and no
/// capability.
pub proof fn lemma_single_line_reply(domain: Seq<char>)
    requires
        is_domain(domain),
    ensures
        reply_meaning(seq![domain]) == Ok::<EhloDataView, SyntaxError>(
            EhloDataView { domain, capabilities: Map::empty() },
        ),
{
    lemma_domain_has_no_space(domain);
    assert(seq![domain].skip(1) == Seq::<Seq<char>>::empty());
}

/// What follows the first space of the first line says nothing: with any
/// text behind the server's name, and whatever lines come after, the reply
/// means what it means without that text.
pub proof fn lemma_greeting_text_ignored(
    domain: Seq<char>,
    text: Seq<char>,
    rest: Seq<Seq<char>>,
)
    requires
        is_domain(domain),
    ensures
        reply_meaning(seq![domain + seq![' '] + text] + rest) == reply_meaning(
            seq![domain] + rest,
        ),
{
    let first = domain + seq![' '] + text;
    lemma_domain_has_no_space(domain);
    assert(head_before(first, ' ') == domain) by {
        lemma_index_of_unique(first, ' ', domain.len() as int);
        assert(first.take(domain.len() as int) == domain);
    }
    assert((seq![first] + rest).skip(1) == rest);
    assert((seq![domain] + rest).skip(1) == rest);
}

/// Of the lines that announce one keyword, the last counts: where no line
/// is malformed, the keyword of a line has the parameters of that line,
/// unless a later line announces the same keyword.
pub proof fn lemma_last_line_wins(lines: Seq<Seq<char>>, i: int)
    requires
        0 <= i < lines.len(),
        capabilities_of(lines) is Ok,
        line_meaning(lines[i]) is Entry,
        forall|j: int|
            i < j < lines.len() && #[trigger] line_meaning(lines[j]) is Entry ==> line_meaning(
                lines[j],
            )->keyword != line_meaning(lines[i])->keyword,
    ensures
        capabilities_of(lines)->Ok_0.contains_key(line_meaning(lines[i])->keyword),
        capabilities_of(lines)->Ok_0[line_meaning(lines[i])->keyword] == line_meaning(
            lines[i],
        )->params,
    decreases lines.len(),
{
    let before = lines.drop_last();
    if i < lines.len() - 1 {
        assert(before[i] == lines[i]);
        let keyword = line_meaning(lines[i])->keyword;
        assert forall|j: int|
            i < j < before.len() && #[trigger] line_meaning(
                before[j],
            ) is Entry implies line_meaning(before[j])->keyword != keyword by {
            assert(before[j] == lines[j]);
        }
        lemma_last_line_wins(before, i);
        assert(line_meaning(lines[lines.len() - 1]) is Entry ==> line_meaning(
            lines[lines.len() - 1],
        )->keyword != line_meaning(lines[i])->keyword);
    }
}

/// Every capability that the lines announce stands under a keyword in
/// upper case.
pub proof fn lemma_keys_are_upper_keywords(lines: Seq<Seq<char>>)
    requires
        capabilities_of(lines) is Ok,
    ensures
        forall|k: Seq<char>| #[trigger]
            capabilities_of(lines)->Ok_0.contains_key(k) ==> is_keyword(k) && upper(k) == k,
    decreases lines.len(),
{
    if lines.len() > 0 {
        lemma_keys_are_upper_keywords(lines.drop_last());
        if line_meaning(lines.last()) is Entry {
            lemma_upper_keyword(split_on(lines.last(), ' ')[0]);
        }
    }
}

/// A line that is passed over leaves the capabilities as the lines before it
/// made them.
pub proof fn lemma_ignored_line_adds_nothing(lines: Seq<Seq<char>>, line: Seq<char>)
    requires
        line_meaning(line) is Ignored,
    ensures
        capabilities_of(lines.push(line)) == capabilities_of(lines),
{
    assert(lines.push(line).drop_last() == lines);
}

/// What the reading of a line returned, as a meaning.
pub open spec fn line_view(
    r: Result<Option<(Capability, Vec<EhloParam>)>, SyntaxError>,
) -> LineMeaning {
    match r {
        Ok(None) => LineMeaning::Ignored,
        Ok(Some((keyword, params))) => LineMeaning::Entry {
            keyword: keyword@,
            params: params_view(params@),
        },
        Err(e) => LineMeaning::Malformed(e),
    }
}

/// Cutting at a separator: the pieces of `s` are the piece before the
/// separator at `k`, then the pieces of what follows it.
proof fn lemma_split_step(s: Seq<char>, sep: char, from: int, k: int)
    requires
        0 <= from <= k <= s.len(),
        k == from + index_of(s.subrange(from, s.len() as int), sep),
    ensures
        k < s.len() ==> split_on(s.skip(from), sep) == seq![s.subrange(from, k)] + split_on(
            s.skip(k + 1),
            sep,
        ),
        k == s.len() ==> split_on(s.skip(from), sep) == seq![s.subrange(from, k)],
{
    let rest = s.skip(from);
    assert(s.subrange(from, s.len() as int) == rest);
    assert(rest.take(k - from) == s.subrange(from, k));
    if k < s.len() {
        assert(rest.skip(k - from + 1) == s.skip(k + 1));
    } else {
        assert(rest.take(k - from) == rest);
    }
}

/// Reads one line after the first.
pub fn parse_capability_line(line: &str) -> (r: Result<
    Option<(Capability, Vec<EhloParam>)>,
    SyntaxError,
>)
    ensures
        line_view(r) == line_meaning(line@),
{
    let cs = chars_of(line);
    let n = cs.len();
    let ghost tokens = split_on(line@, ' ');
    let keyword_end = find_char(&cs, 0, n, ' ');
    proof {
        assert(line@.skip(0) == line@);
        lemma_split_step(line@, ' ', 0, keyword_end as int);
    }
    let candidate = line.substring_char(0, keyword_end);
    assert(candidate@ == tokens[0]);
    let capability = match Capability::parse(candidate) {
        Ok(capability) => capability,
        Err(e) => {
            let prefix_end = find_char(&cs, 0, keyword_end, '=');
            assert(cs@.subrange(0, keyword_end as int) == candidate@);
            assert(cs@.subrange(0, prefix_end as int) == head_before(candidate@, '='));
            if check_auth(&cs, 0, prefix_end) {
                return Ok(None);
            } else {
                return Err(e);
            }
        },
    };
    let mut params: Vec<EhloParam> = Vec::new();
    let mut at: usize = keyword_end;
    let ghost mut done = seq![tokens[0]];
    while at < n
        invariant
            at <= n,
            n == cs@.len(),
            cs@ == line@,
            tokens == split_on(line@, ' '),
            at < n ==> tokens == done + split_on(line@.skip(at + 1), ' '),
            at == n ==> tokens == done,
            done.len() >= 1,
            is_keyword(tokens[0]),
            params_view(params@) == done.skip(1),
            forall|i: int| 1 <= i < done.len() ==> is_param(#[trigger] done[i]),
        decreases n - at,
    {
        let start = at + 1;
        let end = find_char(&cs, start, n, ' ');
        let token = line.substring_char(start, end);
        let ghost old_params = params;
        proof {
            lemma_split_step(line@, ' ', start as int, end as int);
            let next = done.push(token@);
            if end < n {
                assert(tokens == next + split_on(line@.skip(end + 1), ' '));
            } else {
                assert(tokens == next);
            }
            assert(tokens[done.len() as int] == token@);
        }
        match EhloParam::parse(token) {
            Ok(param) => {
                params.push(param);
            },
            Err(e) => {
                assert(!is_param(tokens[done.len() as int]));
                return Err(e);
            },
        }
        proof {
            let ghost before = done;
            done = done.push(token@);
            assert(params_view(params@) =~= done.skip(1)) by {
                let had = params_view(old_params@);
                let has = params_view(params@);
                assert(has.len() == had.len() + 1);
                assert forall|i: int| 0 <= i < has.len() implies has[i] == done.skip(1)[i] by {
                    if i < had.len() {
                        assert(has[i] == had[i]);
                        assert(had[i] == before.skip(1)[i]);
                    }
                }
            }
        }
        at = end;
    }
    Ok(Some((capability, params)))
}

} // verus!
