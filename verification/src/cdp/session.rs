//! A session over a WebSocket: which messages are answered how, and when the
//! session ends.
use vstd::prelude::*;
use vstd::string::*;

use crate::cdp::protocol;
use crate::cdp::protocol::{
    CdpError, CdpErrorView, CdpEvent, CdpRequest, CdpResponse, CdpResponseView, DomainResult,
    Outcome,
};
use crate::codec;
use crate::json::{Json, JsonView};
use crate::text;

verus! {

/// A hexadecimal digit, or the hyphen in its place.
pub open spec fn uuid_char(c: char, i: int) -> bool {
    if i == 8 || i == 13 || i == 18 || i == 23 {
        c == '-'
    } else {
        '0' <= c <= '9' || 'a' <= c <= 'f'
    }
}

/// A UUID in groups with hyphens between.
pub open spec fn hyphenated_uuid(s: Seq<char>) -> bool {
    s.len() == 36 && forall|i: int| 0 <= i < s.len() ==> uuid_char(#[trigger] s[i], i)
}

/// `Uuid::new_v4` of the `uuid` crate, printed by its `Display`: thirty-two
/// hexadecimal digits in lower case, with hyphens between groups of eight,
/// four, four, four and twelve. Which digits is left to chance.
#[verifier::external_body]
fn random_uuid() -> (r: String)
    ensures
        hyphenated_uuid(r@),
{
    uuid::Uuid::new_v4().to_string()
}

/// A new id for a session.
pub fn new_session_id() -> (r: String)
    ensures
        exists|u: Seq<char>| hyphenated_uuid(u) && r@ == #[trigger] ("session-"@ + u),
{
    let u: String = random_uuid();
    text::concat("session-", u.as_str())
}

/// What a session is told.
pub enum Incoming {
    /// A text message of the client.
    Text(String),
    /// The client closes the connection.
    Close,
    /// The client asks for a sign of life.
    Ping(Vec<u8>),
    /// Any other message of the client: binary data, a sign of life, a raw frame.
    Other,
    /// The connection cannot be read.
    ReadError,
    /// The connection has ended.
    Ended,
    /// An event for the client.
    Event(CdpEvent),
    /// No more events will come.
    EventsEnded,
    /// An event could not be sent.
    EventNotSent,
}

/// What a session does next.
pub enum Action {
    /// Handles a text message.
    Handle(String),
    /// Sends a sign of life with the data that came with the question.
    Pong(Vec<u8>),
    /// Sends an event.
    Send(CdpEvent),
    /// Waits for what comes next.
    Wait,
    /// Ends.
    Stop,
}

/// What a session does next is what it is told asks for.
pub open spec fn acts(told: Incoming, a: Action) -> bool {
    match told {
        Incoming::Text(t) => a == Action::Handle(t),
        Incoming::Close => a is Stop,
        Incoming::Ping(data) => a == Action::Pong(data),
        Incoming::Other => a is Wait,
        Incoming::ReadError => a is Stop,
        Incoming::Ended => a is Stop,
        Incoming::Event(e) => a == Action::Send(e),
        Incoming::EventsEnded => a is Stop,
        Incoming::EventNotSent => a is Stop,
    }
}

/// What a session does next.
pub fn next_action(told: Incoming) -> (r: Action)
    ensures
        acts(told, r),
{
    match told {
        Incoming::Text(t) => Action::Handle(t),
        Incoming::Close => Action::Stop,
        Incoming::Ping(data) => Action::Pong(data),
        Incoming::Other => Action::Wait,
        Incoming::ReadError => Action::Stop,
        Incoming::Ended => Action::Stop,
        Incoming::Event(e) => Action::Send(e),
        Incoming::EventsEnded => Action::Stop,
        Incoming::EventNotSent => Action::Stop,
    }
}

/// A session goes on after messages and events, and ends when the client
/// closes, the connection fails or ends, or events can no longer be sent.
pub proof fn lemma_session_ends(told: Incoming, a: Action)
    requires
        acts(told, a),
    ensures
        a is Stop <==> (told is Close || told is ReadError || told is Ended || told is EventsEnded
            || told is EventNotSent),
{
}

/// An answer that is an error, to a message that no command could be read from.
pub open spec fn refusal(code: i32, message: Seq<char>) -> CdpResponseView {
    CdpResponseView {
        id: 0,
        result: None,
        error: Some(CdpErrorView { code, message }),
        session_id: None,
    }
}

/// The message of the error for a message that is too large.
pub open spec fn too_large(size: nat, max: nat) -> Seq<char> {
    "Message too large: "@ + text::decimal(size) + " bytes (max "@ + text::decimal(max)
        + " bytes)"@
}

fn refuse(code: i32, message: String) -> (r: CdpResponse)
    ensures
        r@ == refusal(code, message@),
{
    CdpResponse {
        id: 0,
        result: None,
        error: Some(CdpError { code, message }),
        session_id: None,
    }
}

/// The answer to a text message that is longer than `max` bytes; nothing for
/// one that is not.
pub fn oversized(message: &str, max: usize) -> (r: Option<CdpResponse>)
    ensures
        ({
            let size = vstd::utf8::encode_utf8(message@).len();
            match r {
                Some(a) => size > max && a@ == refusal(
                    protocol::INVALID_REQUEST,
                    too_large(size, max as nat),
                ),
                None => size <= max,
            }
        }),
{
    let size: usize = message.as_bytes().len();
    if size <= max {
        return None;
    }
    let mut m: String = text::concat3(
        "Message too large: ",
        text::decimal_text(size as u128).as_str(),
        " bytes (max ",
    );
    m.append(text::decimal_text(max as u128).as_str());
    m.append(" bytes)");
    Some(refuse(protocol::INVALID_REQUEST, m))
}

/// The answer to a text message that no command can be read from.
pub fn unreadable(why: &str) -> (r: CdpResponse)
    ensures
        r@ == refusal(protocol::PARSE_ERROR, "Parse error: "@ + why@),
{
    refuse(protocol::PARSE_ERROR, text::concat("Parse error: ", why))
}

/// The answer to a command with this outcome.
pub open spec fn answer_view(
    id: Option<u64>,
    session_id: Option<Seq<char>>,
    outcome: Outcome,
) -> CdpResponseView {
    CdpResponseView {
        id: match id {
            Some(n) => n,
            None => 0,
        },
        result: match outcome {
            Ok(v) => Some(
                match v {
                    Some(j) => j,
                    None => JsonView::Object(Seq::empty()),
                },
            ),
            Err(_) => None,
        },
        error: match outcome {
            Ok(_) => None,
            Err(e) => Some(e),
        },
        session_id,
    }
}

/// The answer to a command: under its id, or zero where it has none, and for
/// the session that it names. A command without a result gets an empty object.
pub fn answer(id: Option<u64>, session_id: Option<String>, result: DomainResult) -> (r: CdpResponse)
    ensures
        r@ == answer_view(id, codec::text_view(session_id), protocol::outcome(result)),
{
    let id: u64 = match id {
        Some(n) => n,
        None => 0,
    };
    match result {
        Ok(v) => {
            let value: Json = match v {
                Some(j) => j,
                None => Json::empty_object(),
            };
            CdpResponse { id, result: Some(value), error: None, session_id }
        },
        Err(e) => CdpResponse { id, result: None, error: Some(e), session_id },
    }
}

/// What is to be done for a text message: answer it at once, or perform the
/// command that was read from it and answer its outcome.
pub enum Handling {
    Reply(CdpResponse),
    Dispatch(CdpRequest),
}

/// What is to be done for a text message, where `read` is the command that was
/// read from it, or why none could be. A message that is too large is refused
/// whatever was read.
pub fn handle_text_message(message: &str, max: usize, read: Result<CdpRequest, String>) -> (r:
    Handling)
    ensures
        ({
            let size = vstd::utf8::encode_utf8(message@).len();
            if size > max {
                r matches Handling::Reply(a) && a@ == refusal(
                    protocol::INVALID_REQUEST,
                    too_large(size, max as nat),
                )
            } else {
                match read {
                    Ok(request) => r == Handling::Dispatch(request),
                    Err(why) => r matches Handling::Reply(a) && a@ == refusal(
                        protocol::PARSE_ERROR,
                        "Parse error: "@ + why@,
                    ),
                }
            }
        }),
{
    match oversized(message, max) {
        Some(a) => {
            return Handling::Reply(a);
        },
        None => {},
    }
    match read {
        Ok(request) => Handling::Dispatch(request),
        Err(why) => Handling::Reply(unreadable(why.as_str())),
    }
}

/// An answer carries either a result or an error, never both and never neither,
/// and the id and session of the command.
pub proof fn lemma_answer(id: u64, session_id: Option<Seq<char>>, outcome: Outcome)
    ensures
        ({
            let a = answer_view(Some(id), session_id, outcome);
            &&& a.id == id
            &&& a.session_id == session_id
            &&& a.result is Some <==> outcome is Ok
            &&& a.error is Some <==> outcome is Err
        }),
{
}

/// What a session is given it passes on as it is: a message to be handled, the
/// data of a ping with the answer to it, an event to the client. Anything else
/// that it is told while the connection lives it passes over.
pub proof fn lemma_passed_on(told: Incoming, a: Action)
    requires
        acts(told, a),
    ensures
        told matches Incoming::Text(t) ==> (a matches Action::Handle(u) && u@ == t@),
        told matches Incoming::Ping(data) ==> (a matches Action::Pong(d) && d@ == data@),
        told matches Incoming::Event(e) ==> (a matches Action::Send(f) && f@ == e@),
        told is Other ==> a is Wait,
{
}

/// An answer carries what the command gave: its value, an empty object where it
/// gave none, or its error. A command without an id is answered under zero.
pub proof fn lemma_answer_carries(
    id: Option<u64>,
    session_id: Option<Seq<char>>,
    v: JsonView,
    e: CdpErrorView,
)
    ensures
        answer_view(id, session_id, Ok(Some(v))).result == Some(v),
        answer_view(id, session_id, Ok(Some(v))).error is None,
        (answer_view(id, session_id, Ok(None)).result matches Some(JsonView::Object(ms)) && ms.len()
            == 0),
        answer_view(id, session_id, Err(e)).error == Some(e),
        answer_view(id, session_id, Err(e)).result is None,
        id is None ==> answer_view(id, session_id, Ok(Some(v))).id == 0,
        id is Some ==> answer_view(id, session_id, Err(e)).id == id->0,
{
}

/// A message that is refused is answered with an error alone, under no id and
/// no session. One that is too large is told its size and the limit.
pub proof fn lemma_refused(code: i32, message: Seq<char>, size: nat, max: nat)
    ensures
        ({
            let r = refusal(code, message);
            &&& r.id == 0
            &&& r.result is None
            &&& r.session_id is None
            &&& r.error matches Some(e) && e.code == code && e.message == message
        }),
        text::contains_text(too_large(size, max), text::decimal(size)),
        text::contains_text(too_large(size, max), text::decimal(max)),
{
    let a = "Message too large: "@;
    let b = " bytes (max "@;
    let m = too_large(size, max);
    let d = text::decimal(size);
    let x = text::decimal(max);
    let i = a.len() as int;
    assert(m.subrange(i, i + d.len()) =~= d);
    assert(text::occurs_at(m, d, i));
    let j = i + d.len() + b.len();
    assert(m.subrange(j, j + x.len()) =~= x);
    assert(text::occurs_at(m, x, j));
}

} // verus!
