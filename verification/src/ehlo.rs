//! The `EHLO` command: its request line, the reading of the server's reply,
//! and the steps of one exchange.

use vstd::prelude::*;
use crate::data_types::{Capability, ClientId, Domain, SyntaxError};
use crate::ehlo_data::{CapabilityMap, Capabilities, EhloData, EhloDataView};
use crate::grammar::is_domain;
use crate::reply::{
    capabilities_of, line_meaning, parse_capability_line, reply_meaning, LineMeaning,
};
use crate::response::{line_views, Response};
use crate::text::{chars_of, find_char, head_before};
use vstd::string::StrSliceExecFns;

verus! {

/// `BytesMut` of the crate `bytes`: a growable buffer of bytes. Nothing of
/// its inside is known here.
#[verifier::external_type_specification]
#[verifier::external_body]
pub struct ExBytesMut(bytes::BytesMut);

/// The bytes that a buffer holds, in their order.
pub uninterp spec fn buffer_bytes(buffer: bytes::BytesMut) -> Seq<u8>;

/// `BytesMut::extend_from_slice` of the crate `bytes`: the buffer grows as far
/// as it must and then holds what it held, followed by `data`. That memory is
/// left for it is taken for granted, as it is for a `Vec`.
#[verifier::external_body]
fn extend_buffer(buffer: &mut bytes::BytesMut, data: &[u8])
    ensures
        buffer_bytes(*final(buffer)) == buffer_bytes(*old(buffer)) + data@,
{
    buffer.extend_from_slice(data);
}

/// The capabilities that a command needs and a server did not announce.
#[derive(Debug)]
pub struct MissingCapabilities {
    capabilities: Vec<Capability>,
}

impl View for MissingCapabilities {
    type V = Seq<Capability>;

    closed spec fn view(&self) -> Seq<Capability> {
        self.capabilities@
    }
}

impl MissingCapabilities {
    /// These capabilities are missing.
    pub fn new(capabilities: Vec<Capability>) -> (r: MissingCapabilities)
        ensures
            r@ == capabilities@,
    {
        MissingCapabilities { capabilities }
    }

    /// The capabilities that are missing.
    pub fn capabilities(&self) -> (r: &[Capability])
        ensures
            r@ == self@,
    {
        self.capabilities.as_slice()
    }
}

/// The bytes of the request: `EHLO`, a space, the client's name, and the end
/// of the line.
pub open spec fn request_bytes(identity: Seq<char>) -> Seq<u8> {
    seq![69u8, 72u8, 76u8, 79u8, 32u8] + Seq::new(identity.len(), |i: int| identity[i] as u8)
        + seq![13u8, 10u8]
}

/// The greeting command of a client.
#[derive(Debug, Clone)]
pub struct Ehlo {
    identity: ClientId,
}

impl View for Ehlo {
    type V = ClientId;

    closed spec fn view(&self) -> ClientId {
        self.identity
    }
}

impl Ehlo {
    /// The command by which a client of this name greets.
    pub fn new(identity: ClientId) -> (r: Ehlo)
        ensures
            r@ == identity,
    {
        Ehlo { identity }
    }

    /// The name that the client gives.
    pub fn identity(&self) -> (r: &ClientId)
        ensures
            *r == self@,
    {
        &self.identity
    }

    /// Gives the name back.
    pub fn into_identity(self) -> (r: ClientId)
        ensures
            r == self@,
    {
        self.identity
    }

    /// The command needs no capability: it can be sent on any connection,
    /// greeted or not.
    pub fn check_cmd_availability(&self, caps: Option<&EhloData>) -> (r: Result<
        (),
        MissingCapabilities,
    >)
        ensures
            r is Ok,
    {
        Ok(())
    }

    /// The request line.
    pub fn request_line(&self) -> (line: Vec<u8>)
        ensures
            line@ == request_bytes(self@@),
    {
        broadcast use vstd::string::is_ascii_spec_bytes;

        let name = self.identity.as_str();
        let bytes = name.as_bytes();
        assert(vstd::string::is_ascii(name));
        let mut line: Vec<u8> = Vec::new();
        line.push(69u8);
        line.push(72u8);
        line.push(76u8);
        line.push(79u8);
        line.push(32u8);
        let ghost head = line@;
        let mut i: usize = 0;
        while i < bytes.len()
            invariant
                i <= bytes@.len(),
                bytes@.len() == name@.len(),
                forall|j: int| 0 <= j < bytes@.len() ==> bytes@[j] == name@[j] as u8,
                line@ == head + Seq::new(i as nat, |j: int| name@[j] as u8),
            decreases bytes@.len() - i,
        {
            line.push(bytes[i]);
            i += 1;
            assert(line@ =~= head + Seq::new(i as nat, |j: int| name@[j] as u8));
        }
        line.push(13u8);
        line.push(10u8);
        assert(line@ =~= request_bytes(name@));
        line
    }

    /// Puts the request line at the end of the bytes that wait to be sent.
    pub fn write_request(&self, out: &mut bytes::BytesMut)
        ensures
            buffer_bytes(*final(out)) == buffer_bytes(*old(out)) + request_bytes(self@@),
    {
        let line = self.request_line();
        extend_buffer(out, line.as_slice());
    }
}

impl From<ClientId> for Ehlo {
    /// The command by which a client of this name greets.
    fn from(identity: ClientId) -> (r: Ehlo)
        ensures
            r@ == identity,
    {
        Ehlo { identity }
    }
}

impl vstd::std_specs::convert::FromSpecImpl<ClientId> for Ehlo {
    open spec fn obeys_from_spec() -> bool {
        true
    }

    closed spec fn from_spec(identity: ClientId) -> Ehlo {
        Ehlo { identity }
    }
}

impl From<Ehlo> for ClientId {
    /// The name that the command holds.
    fn from(command: Ehlo) -> (r: ClientId) {
        command.identity
    }
}

impl vstd::std_specs::convert::FromSpecImpl<Ehlo> for ClientId {
    open spec fn obeys_from_spec() -> bool {
        true
    }

    open spec fn from_spec(command: Ehlo) -> ClientId {
        command@
    }
}

/// What the reading of a reply returned, as a meaning.
pub open spec fn reply_view(r: Result<EhloData, SyntaxError>) -> Result<EhloDataView, SyntaxError> {
    match r {
        Ok(data) => Ok(data@),
        Err(e) => Err(e),
    }
}

/// Once a line is malformed, the lines after it change nothing: the error of
/// the first malformed line is the error of the whole.
pub proof fn lemma_first_error_decides(lines: Seq<Seq<char>>, k: int)
    requires
        0 <= k <= lines.len(),
        capabilities_of(lines.take(k)) is Err,
    ensures
        capabilities_of(lines) == capabilities_of(lines.take(k)),
    decreases lines.len() - k,
{
    if k == lines.len() {
        assert(lines.take(k) == lines);
    } else {
        assert(lines.take(k + 1).drop_last() == lines.take(k));
        lemma_first_error_decides(lines, k + 1);
    }
}

/// Reads the reply to `EHLO`: the server's name from the first line, and the
/// capabilities from the others.
pub fn parse_ehlo_response(response: &Response) -> (r: Result<EhloData, SyntaxError>)
    requires
        response.lines().len() > 0,
    ensures
        reply_view(r) == reply_meaning(response.lines()),
{
    let lines = response.msg();
    let ghost all = response.lines();
    let first = lines[0].as_str();
    assert(first@ == all[0]);
    let cs = chars_of(first);
    assert(cs@.subrange(0, cs@.len() as int) == cs@);
    let name_end = find_char(&cs, 0, cs.len(), ' ');
    let domain = match Domain::parse(first.substring_char(0, name_end)) {
        Ok(domain) => domain,
        Err(e) => {
            return Err(e);
        },
    };
    let ghost rest = all.skip(1);
    let mut capabilities = CapabilityMap::new();
    let mut i: usize = 1;
    assert(rest.take(0) == Seq::<Seq<char>>::empty());
    while i < lines.len()
        invariant
            1 <= i <= lines@.len(),
            all == line_views(lines@),
            all == response.lines(),
            rest == all.skip(1),
            is_domain(head_before(all[0], ' ')),
            domain@ == head_before(all[0], ' '),
            capabilities_of(rest.take(i - 1)) == Ok::<Capabilities, SyntaxError>(capabilities@),
        decreases lines@.len() - i,
    {
        let read = parse_capability_line(lines[i].as_str());
        proof {
            assert(rest.take(i as int).drop_last() == rest.take(i - 1));
            assert(rest.take(i as int).last() == lines@[i as int]@);
        }
        match read {
            Ok(None) => {},
            Ok(Some((keyword, params))) => {
                capabilities.insert(keyword, params);
            },
            Err(e) => {
                proof {
                    let read_so_far = rest.take(i as int);
                    assert(line_meaning(read_so_far.last()) == LineMeaning::Malformed(e));
                    assert(capabilities_of(read_so_far) is Err);
                    lemma_first_error_decides(rest, i as int);
                }
                return Err(e);
            },
        }
        i += 1;
    }
    assert(rest.take(i - 1) == rest);
    Ok(EhloData::new(domain, capabilities))
}

/// Reading is a function of the lines alone: two readings of replies that
/// hold the same lines give the same result, whatever else differs.
pub proof fn lemma_reading_is_a_function(
    first: Response,
    second: Response,
    a: Result<EhloData, SyntaxError>,
    b: Result<EhloData, SyntaxError>,
)
    requires
        first.lines() == second.lines(),
        reply_view(a) == reply_meaning(first.lines()),
        reply_view(b) == reply_meaning(second.lines()),
    ensures
        reply_view(a) == reply_view(b),
{
}

/// Where one exchange stands.
#[derive(Debug, Clone, Copy, PartialEq, Eq, Structural)]
pub enum Exchange {
    /// The request is written and has to reach the server.
    AwaitingFlush,
    /// The request is sent and the reply is due.
    AwaitingReply,
}

/// What the connection reports to an exchange.
#[derive(Debug)]
pub enum Event {
    /// All bytes written have been sent.
    Flushed,
    /// A whole reply has arrived.
    Reply(Response),
}

/// Why an exchange broke off. After either the connection is of no use.
#[derive(Debug, Clone, Copy, PartialEq, Eq, Structural)]
pub enum ExchangeError {
    /// The server accepted the command, but its reply breaks a grammar.
    Syntax(SyntaxError),
    /// The event is not the one that the exchange was waiting for.
    OutOfOrder,
}

/// What an exchange asks for after an event.
#[derive(Debug)]
pub enum Step {
    /// Read the server's reply, and report it to the exchange in this state.
    ReadReply(Exchange),
    /// The exchange is over. `Ok` holds the reply by which the server accepted
    /// the command, `Err` the reply by which it refused.
    Done(Result<Response, Response>),
    /// The exchange broke off.
    Failed(ExchangeError),
}

/// What a reply does to the capabilities known of the server, and what the
/// caller gets: a refusal is handed on and changes nothing; so does a reply
/// that breaks a grammar; an acceptance that can be read puts what it
/// announces in place of what was known.
pub fn conclude(response: Response, session: &mut Option<EhloData>) -> (r: Result<
    Result<Response, Response>,
    SyntaxError,
>)
    requires
        response.success() ==> response.lines().len() > 0,
    ensures
        !response.success() ==> {
            &&& r == Ok::<Result<Response, Response>, SyntaxError>(Err(response))
            &&& *final(session) == *old(session)
        },
        response.success() ==> match reply_meaning(response.lines()) {
            Ok(announced) => {
                &&& r == Ok::<Result<Response, Response>, SyntaxError>(Ok(response))
                &&& *final(session) matches Some(data) && data@ == announced
            },
            Err(e) => {
                &&& r == Err::<Result<Response, Response>, SyntaxError>(e)
                &&& *final(session) == *old(session)
            },
        },
{
    if response.is_erroneous() {
        return Ok(Err(response));
    }
    match parse_ehlo_response(&response) {
        Ok(data) => {
            *session = Some(data);
            Ok(Ok(response))
        },
        Err(e) => Err(e),
    }
}

impl Ehlo {
    /// Begins the exchange: the request line is written behind the bytes
    /// that wait to be sent, and has to be flushed next.
    pub fn exec(self, out: &mut bytes::BytesMut) -> (state: Exchange)
        ensures
            state == Exchange::AwaitingFlush,
            buffer_bytes(*final(out)) == buffer_bytes(*old(out)) + request_bytes(self@@),
    {
        self.write_request(out);
        Exchange::AwaitingFlush
    }
}

impl Exchange {
    /// The next step of the exchange. After the flush the reply is read; the
    /// reply ends the exchange as `conclude` says. An event that the state
    /// does not wait for breaks the exchange off and changes nothing.
    pub fn advance(self, event: Event, session: &mut Option<EhloData>) -> (step: Step)
        requires
            event matches Event::Reply(response) ==> (response.success() ==> response.lines().len()
                > 0),
        ensures
            match (self, event) {
                (Exchange::AwaitingFlush, Event::Flushed) => {
                    &&& step == Step::ReadReply(Exchange::AwaitingReply)
                    &&& *final(session) == *old(session)
                },
                (Exchange::AwaitingReply, Event::Reply(response)) => if !response.success() {
                    &&& step == Step::Done(Err(response))
                    &&& *final(session) == *old(session)
                } else {
                    match reply_meaning(response.lines()) {
                        Ok(announced) => {
                            &&& step == Step::Done(Ok(response))
                            &&& *final(session) matches Some(data) && data@ == announced
                        },
                        Err(e) => {
                            &&& step == Step::Failed(ExchangeError::Syntax(e))
                            &&& *final(session) == *old(session)
                        },
                    }
                },
                _ => {
                    &&& step == Step::Failed(ExchangeError::OutOfOrder)
                    &&& *final(session) == *old(session)
                },
            },
    {
        match (self, event) {
            (Exchange::AwaitingFlush, Event::Flushed) => Step::ReadReply(Exchange::AwaitingReply),
            (Exchange::AwaitingReply, Event::Reply(response)) => match conclude(
                response,
                session,
            ) {
                Ok(reply) => Step::Done(reply),
                Err(e) => Step::Failed(ExchangeError::Syntax(e)),
            },
            _ => Step::Failed(ExchangeError::OutOfOrder),
        }
    }
}

} // verus!
