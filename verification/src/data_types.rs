//! The validated values of an `EHLO` exchange: the names of client and server,
//! capability keywords and their parameters.

use vstd::prelude::*;
use vstd::string::StrSliceExecFns;
use crate::grammar::{
    check_address_literal, check_domain, check_keyword, check_param, is_address_literal,
    is_domain, is_keyword, is_param, upper, upper_char,
};
use crate::text::{chars_of, is_ldh, is_let_dig};

verus! {

/// The grammar that a piece of text failed.
#[derive(Debug, Clone, Copy, PartialEq, Eq, Structural)]
pub enum SyntaxError {
    /// The text is no domain name (nor, for a client's name, an address literal).
    Domain,
    /// The text is no ESMTP keyword.
    EsmtpKeyword,
    /// The text is no parameter of a capability.
    EsmtpValue,
}

/// A domain name, kept as it was written.
#[derive(Debug, PartialEq, Eq, Hash)]
pub struct Domain {
    text: String,
}

impl View for Domain {
    type V = Seq<char>;

    closed spec fn view(&self) -> Seq<char> {
        self.text@
    }
}

impl Clone for Domain {
    fn clone(&self) -> (r: Self)
        ensures
            r@ == self@,
    {
        proof {
            use_type_invariant(self);
        }
        Domain { text: self.text.clone() }
    }
}

impl Domain {
    #[verifier::type_invariant]
    spec fn valid(&self) -> bool {
        is_domain(self.text@)
    }

    /// Accepts exactly the texts that are domain names.
    pub fn parse(text: &str) -> (r: Result<Domain, SyntaxError>)
        ensures
            match r {
                Ok(d) => is_domain(text@) && d@ == text@,
                Err(e) => !is_domain(text@) && e == SyntaxError::Domain,
            },
    {
        let cs = chars_of(text);
        assert(cs@.subrange(0, cs@.len() as int) == cs@);
        if check_domain(&cs, 0, cs.len()) {
            Ok(Domain { text: text.to_owned() })
        } else {
            Err(SyntaxError::Domain)
        }
    }

    /// The name as it goes on the wire.
    pub fn as_str(&self) -> (s: &str)
        ensures
            s@ == self@,
            is_domain(s@),
    {
        proof {
            use_type_invariant(self);
        }
        self.text.as_str()
    }
}

/// An address literal, brackets included.
#[derive(Debug, PartialEq, Eq, Hash)]
pub struct AddressLiteral {
    text: String,
}

impl View for AddressLiteral {
    type V = Seq<char>;

    closed spec fn view(&self) -> Seq<char> {
        self.text@
    }
}

impl Clone for AddressLiteral {
    fn clone(&self) -> (r: Self)
        ensures
            r@ == self@,
    {
        proof {
            use_type_invariant(self);
        }
        AddressLiteral { text: self.text.clone() }
    }
}

impl AddressLiteral {
    #[verifier::type_invariant]
    spec fn valid(&self) -> bool {
        is_address_literal(self.text@)
    }

    /// Accepts exactly the texts that are address literals.
    pub fn parse(text: &str) -> (r: Result<AddressLiteral, SyntaxError>)
        ensures
            match r {
                Ok(a) => is_address_literal(text@) && a@ == text@,
                Err(e) => !is_address_literal(text@) && e == SyntaxError::Domain,
            },
    {
        let cs = chars_of(text);
        assert(cs@.subrange(0, cs@.len() as int) == cs@);
        if check_address_literal(&cs, 0, cs.len()) {
            Ok(AddressLiteral { text: text.to_owned() })
        } else {
            Err(SyntaxError::Domain)
        }
    }

    /// The literal as it goes on the wire.
    pub fn as_str(&self) -> (s: &str)
        ensures
            s@ == self@,
            is_address_literal(s@),
    {
        proof {
            use_type_invariant(self);
        }
        self.text.as_str()
    }
}

/// The name by which a client presents itself.
#[derive(Debug, Clone, PartialEq, Eq, Hash)]
pub enum ClientId {
    Domain(Domain),
    AddressLiteral(AddressLiteral),
}

impl View for ClientId {
    type V = Seq<char>;

    open spec fn view(&self) -> Seq<char> {
        match self {
            ClientId::Domain(d) => d@,
            ClientId::AddressLiteral(a) => a@,
        }
    }
}

/// No text is both a domain name and an address literal.
pub proof fn lemma_domain_or_literal(s: Seq<char>)
    ensures
        !(is_domain(s) && is_address_literal(s)),
{
}

impl ClientId {
    /// Accepts a domain name or an address literal, and tells which it is.
    pub fn parse(text: &str) -> (r: Result<ClientId, SyntaxError>)
        ensures
            match r {
                Ok(ClientId::Domain(d)) => is_domain(text@) && d@ == text@,
                Ok(ClientId::AddressLiteral(a)) => is_address_literal(text@) && a@ == text@,
                Err(e) => !is_domain(text@) && !is_address_literal(text@) && e
                    == SyntaxError::Domain,
            },
    {
        proof {
            lemma_domain_or_literal(text@);
        }
        match Domain::parse(text) {
            Ok(d) => Ok(ClientId::Domain(d)),
            Err(_) => match AddressLiteral::parse(text) {
                Ok(a) => Ok(ClientId::AddressLiteral(a)),
                Err(e) => Err(e),
            },
        }
    }

    /// The name as it goes on the wire after `EHLO `.
    pub fn as_str(&self) -> (s: &str)
        ensures
            s@ == self@,
            is_domain(s@) || is_address_literal(s@),
    {
        match self {
            ClientId::Domain(d) => d.as_str(),
            ClientId::AddressLiteral(a) => a.as_str(),
        }
    }
}

/// `str::to_ascii_uppercase` of std: a copy of the text in which the letters
/// `a` to `z` are replaced by `A` to `Z` and every other character is kept.
#[verifier::external_body]
fn ascii_uppercase(text: &str) -> (r: String)
    ensures
        r@ == upper(text@),
{
    text.to_ascii_uppercase()
}

/// The upper-case form of a keyword is a keyword, and is its own upper-case form.
pub proof fn lemma_upper_keyword(s: Seq<char>)
    requires
        is_keyword(s),
    ensures
        is_keyword(upper(s)),
        upper(upper(s)) == upper(s),
{
    let u = upper(s);
    assert forall|i: int| 0 <= i < u.len() implies is_ldh(#[trigger] u[i]) by {
        assert(is_ldh(s[i]));
        assert(u[i] == upper_char(s[i]));
    }
    assert(is_let_dig(s[0]));
    assert(u[0] == upper_char(s[0]));
    assert(upper(u) =~= u) by {
        assert forall|i: int| 0 <= i < u.len() implies upper_char(u[i]) == u[i] by {
            assert(u[i] == upper_char(s[i]));
        }
    }
}

/// A capability keyword. Two keywords that differ only in the case of their
/// letters are the same capability: the value holds the upper-case form.
#[derive(Debug, PartialEq, Eq, Hash)]
pub struct Capability {
    text: String,
}

impl View for Capability {
    type V = Seq<char>;

    closed spec fn view(&self) -> Seq<char> {
        self.text@
    }
}

impl Clone for Capability {
    fn clone(&self) -> (r: Self)
        ensures
            r@ == self@,
    {
        proof {
            use_type_invariant(self);
        }
        Capability { text: self.text.clone() }
    }
}

impl Capability {
    #[verifier::type_invariant]
    spec fn valid(&self) -> bool {
        is_keyword(self.text@) && upper(self.text@) == self.text@
    }

    /// Accepts exactly the texts that are keywords; the value is the upper-case
    /// form of the text.
    pub fn parse(text: &str) -> (r: Result<Capability, SyntaxError>)
        ensures
            match r {
                Ok(c) => is_keyword(text@) && c@ == upper(text@),
                Err(e) => !is_keyword(text@) && e == SyntaxError::EsmtpKeyword,
            },
    {
        let cs = chars_of(text);
        assert(cs@.subrange(0, cs@.len() as int) == cs@);
        if check_keyword(&cs, 0, cs.len()) {
            proof {
                lemma_upper_keyword(text@);
            }
            Ok(Capability { text: ascii_uppercase(text) })
        } else {
            Err(SyntaxError::EsmtpKeyword)
        }
    }

    /// The keyword in upper case.
    pub fn as_str(&self) -> (s: &str)
        ensures
            s@ == self@,
            is_keyword(s@),
            upper(s@) == s@,
    {
        proof {
            use_type_invariant(self);
        }
        self.text.as_str()
    }

    /// Whether both are the same capability.
    pub fn same_as(&self, other: &Capability) -> (r: bool)
        ensures
            r == (self@ == other@),
    {
        self.text == other.text
    }
}

/// One parameter of a capability, kept as it was written.
#[derive(Debug, PartialEq, Eq, Hash)]
pub struct EhloParam {
    text: String,
}

impl View for EhloParam {
    type V = Seq<char>;

    closed spec fn view(&self) -> Seq<char> {
        self.text@
    }
}

impl Clone for EhloParam {
    fn clone(&self) -> (r: Self)
        ensures
            r@ == self@,
    {
        proof {
            use_type_invariant(self);
        }
        EhloParam { text: self.text.clone() }
    }
}

impl EhloParam {
    #[verifier::type_invariant]
    spec fn valid(&self) -> bool {
        is_param(self.text@)
    }

    /// Accepts exactly the texts that are parameters.
    pub fn parse(text: &str) -> (r: Result<EhloParam, SyntaxError>)
        ensures
            match r {
                Ok(p) => is_param(text@) && p@ == text@,
                Err(e) => !is_param(text@) && e == SyntaxError::EsmtpValue,
            },
    {
        let cs = chars_of(text);
        assert(cs@.subrange(0, cs@.len() as int) == cs@);
        if check_param(&cs, 0, cs.len()) {
            Ok(EhloParam { text: text.to_owned() })
        } else {
            Err(SyntaxError::EsmtpValue)
        }
    }

    /// The parameter as it was written.
    pub fn as_str(&self) -> (s: &str)
        ensures
            s@ == self@,
            is_param(s@),
    {
        proof {
            use_type_invariant(self);
        }
        self.text.as_str()
    }
}

/// The texts of a run of parameters, in their order.
pub open spec fn params_view(params: Seq<EhloParam>) -> Seq<Seq<char>> {
    Seq::new(params.len(), |i: int| params[i]@)
}

} // verus!
