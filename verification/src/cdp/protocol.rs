//! The messages of the protocol.
use vstd::prelude::*;
use vstd::string::*;

use crate::codec;
use crate::json::{Json, JsonView};
use crate::text;

verus! {

/// The method does not exist.
pub const METHOD_NOT_FOUND: i32 = -32601;

/// The parameters are missing or wrong.
pub const INVALID_PARAMS: i32 = -32602;

/// The message is no valid request.
pub const INVALID_REQUEST: i32 = -32600;

/// The message is no JSON.
pub const PARSE_ERROR: i32 = -32700;

/// The command failed.
pub const SERVER_ERROR: i32 = -32000;

/// An error as it is sent to a client.
#[derive(Debug, PartialEq, Eq)]
pub struct CdpError {
    pub code: i32,
    pub message: String,
}

/// What an error says.
pub struct CdpErrorView {
    pub code: i32,
    pub message: Seq<char>,
}

impl View for CdpError {
    type V = CdpErrorView;

    open spec fn view(&self) -> CdpErrorView {
        CdpErrorView { code: self.code, message: self.message@ }
    }
}

/// A command of a client.
#[derive(Debug, PartialEq, Eq)]
pub struct CdpRequest {
    pub id: Option<u64>,
    pub method: String,
    pub params: Option<Json>,
    pub session_id: Option<String>,
}

/// The answer to a command.
#[derive(Debug, PartialEq, Eq)]
pub struct CdpResponse {
    pub id: u64,
    pub result: Option<Json>,
    pub error: Option<CdpError>,
    pub session_id: Option<String>,
}

/// What an answer says.
pub struct CdpResponseView {
    pub id: u64,
    pub result: Option<JsonView>,
    pub error: Option<CdpErrorView>,
    pub session_id: Option<Seq<char>>,
}

impl View for CdpResponse {
    type V = CdpResponseView;

    open spec fn view(&self) -> CdpResponseView {
        CdpResponseView {
            id: self.id,
            result: json_option(self.result),
            error: match self.error {
                Some(e) => Some(e@),
                None => None,
            },
            session_id: codec::text_view(self.session_id),
        }
    }
}

/// What a value says, if there is one.
pub open spec fn json_option(j: Option<Json>) -> Option<JsonView> {
    match j {
        Some(v) => Some(v@),
        None => None,
    }
}

/// An event as it is sent to a client.
#[derive(Debug, PartialEq, Eq)]
pub struct CdpEvent {
    pub method: String,
    pub params: Json,
}

/// What an event says.
pub struct CdpEventView {
    pub method: Seq<char>,
    pub params: JsonView,
}

impl View for CdpEvent {
    type V = CdpEventView;

    open spec fn view(&self) -> CdpEventView {
        CdpEventView { method: self.method@, params: self.params@ }
    }
}

/// What a handler gives: a result, if the command has one, or an error.
pub type DomainResult = Result<Option<Json>, CdpError>;

/// What the outcome of a command says.
pub type Outcome = Result<Option<JsonView>, CdpErrorView>;

/// What the outcome of a command says.
pub open spec fn outcome(r: DomainResult) -> Outcome {
    match r {
        Ok(j) => Ok(json_option(j)),
        Err(e) => Err(e@),
    }
}

/// The outcome of a command that succeeds and has nothing to say.
pub open spec fn done() -> Outcome {
    Ok(Some(JsonView::Object(Seq::empty())))
}

/// The outcome of a command that succeeds with a value.
pub open spec fn gives(v: JsonView) -> Outcome {
    Ok(Some(v))
}

/// The outcome of a command that fails.
pub open spec fn fails(code: i32, message: Seq<char>) -> Outcome {
    Err(CdpErrorView { code, message })
}

/// A command that succeeds and has nothing to say.
pub fn succeed() -> (r: DomainResult)
    ensures
        outcome(r) == done(),
{
    Ok(Some(Json::empty_object()))
}

/// An error with a message.
pub fn error(code: i32, message: &str) -> (r: CdpError)
    ensures
        r@ == (CdpErrorView { code, message: message@ }),
{
    CdpError { code, message: message.to_owned() }
}

/// The error for a method that a domain does not have.
pub fn not_implemented(domain: &str, method: &str) -> (r: CdpError)
    ensures
        r@ == unknown_method(domain@, method@),
{
    let mut message: String = text::concat3(domain, ".", method);
    message.append(" not implemented");
    CdpError { code: METHOD_NOT_FOUND, message }
}

/// What the error for a method that a domain does not have says.
pub open spec fn unknown_method(domain: Seq<char>, method: Seq<char>) -> CdpErrorView {
    CdpErrorView {
        code: METHOD_NOT_FOUND,
        message: domain + "."@ + method + " not implemented"@,
    }
}

/// The error for a method that a domain does not have is the one that the
/// protocol has for it, and names the domain and the method.
pub proof fn lemma_unknown_method(domain: Seq<char>, method: Seq<char>)
    ensures
        unknown_method(domain, method).code == -32601,
        ({
            let m = unknown_method(domain, method).message;
            let n = domain.len() as int;
            m.len() > n + 1 + method.len() && m.take(n) == domain && m[n] == '.' && m.subrange(
                n + 1,
                n + 1 + method.len(),
            ) == method
        }),
{
    reveal_strlit(".");
    reveal_strlit(" not implemented");
    let m = unknown_method(domain, method).message;
    let n = domain.len() as int;
    assert(m.take(n) =~= domain);
    assert(m.subrange(n + 1, n + 1 + method.len()) =~= method);
}

/// A command that is done says so with an object that holds nothing; one that
/// gives a value is no failure, and one that fails gives none.
pub proof fn lemma_outcomes(v: JsonView, code: i32, message: Seq<char>, key: Seq<char>)
    ensures
        (done() matches Ok(Some(JsonView::Object(ms))) && ms.len() == 0),
        gives(v) == Ok::<Option<JsonView>, CdpErrorView>(Some(v)),
        (fails(code, message) matches Err(e) && e.code == code && e.message == message),
{
}

} // verus!
