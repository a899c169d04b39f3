//! `fetch(..)`: the request that a call makes, and the script code that its
//! outcome becomes.
use vstd::prelude::*;
use vstd::string::*;

use crate::codec;
use crate::js::arg;
use crate::js::arg::Arg;
use crate::js::case;
use crate::text;

verus! {

/// The sending half of a channel of std, which messages carry.
#[verifier::external_type_specification]
#[verifier::external_body]
#[verifier::reject_recursive_types(T)]
pub struct ExSender<T>(std::sync::mpsc::Sender<T>);

/// A request of a script.
pub struct FetchRequestMsg {
    /// URL to fetch.
    pub url: String,
    /// HTTP method.
    pub method: String,
    /// Request headers (name, value pairs).
    pub headers: Vec<(String, String)>,
    /// Request body (if any).
    pub body: Option<String>,
    /// Channel to send the response back.
    pub response_tx: std::sync::mpsc::Sender<FetchResponseMsg>,
}

/// The response to a request of a script.
pub struct FetchResponseMsg {
    /// HTTP status code.
    pub status: u16,
    /// HTTP status text.
    pub status_text: String,
    /// Final URL (after redirects).
    pub url: String,
    /// Response headers.
    pub headers: Vec<(String, String)>,
    /// Response body text.
    pub body: String,
    /// Error message if request failed.
    pub error: Option<String>,
}

/// What the second argument of `fetch` says, where it is an object: its
/// members `method` and `body`, as far as they are strings.
pub struct FetchOptions {
    pub method: Option<String>,
    pub body: Option<String>,
}

/// The method of a request: the one asked for in upper case, or `GET`.
pub open spec fn request_method(options: Option<FetchOptions>) -> Seq<char> {
    match options {
        Some(o) => match o.method {
            Some(m) => case::uppercased(m@),
            None => "GET"@,
        },
        None => "GET"@,
    }
}

/// The body of a request, if one is given.
pub open spec fn request_body(options: Option<FetchOptions>) -> Option<Seq<char>> {
    match options {
        Some(o) => codec::text_view(o.body),
        None => None,
    }
}

/// The request that `fetch(url, options)` makes. `options` is missing where
/// the second argument is missing or no object.
pub fn fetch_request(
    args: &[Arg],
    options: Option<FetchOptions>,
    response_tx: std::sync::mpsc::Sender<FetchResponseMsg>,
) -> (r: FetchRequestMsg)
    ensures
        r.url@ == arg::text_at(args@, 0),
        r.method@ == request_method(options),
        r.headers@.len() == 0,
        codec::text_view(r.body) == request_body(options),
        r.response_tx == response_tx,
{
    let url: String = arg::text(args, 0);
    let mut method: String = "GET".to_owned();
    let mut body: Option<String> = None;
    match options {
        Some(o) => {
            match o.method {
                Some(m) => {
                    method = case::to_upper(m.as_str());
                },
                None => {},
            }
            body = o.body;
        },
        None => {},
    }
    FetchRequestMsg { url, method, headers: Vec::new(), body, response_tx }
}

/// What became of a request.
pub enum Exchange {
    /// There is no channel to send requests on.
    NoChannel,
    /// The request could not be sent; the text says why.
    SendFailed(String),
    /// The channel was closed before a response came.
    Closed,
    /// A response came.
    Response(FetchResponseMsg),
}

/// What scripts see of a response.
pub struct ResponseObject {
    pub status: u16,
    pub status_text: String,
    pub ok: bool,
    pub url: String,
    pub body_used: bool,
    pub response_type: &'static str,
    pub headers: Vec<(String, String)>,
    /// What the methods `text` and `json` read.
    pub body: String,
}

/// What `fetch` gives back: a promise that is rejected, by the code that makes
/// it, or one that is resolved with a response.
pub enum FetchReply {
    Reject(String),
    Resolve(ResponseObject),
}

/// The code of a promise that is rejected with a message.
pub open spec fn rejection(message: Seq<char>) -> Seq<char> {
    "Promise.reject(new Error('"@ + message + "'))"@
}

/// What `fetch` gives back for an exchange: a rejected promise unless a
/// response without an error came.
pub open spec fn reply_of(e: Exchange, r: FetchReply) -> bool {
    match e {
        Exchange::NoChannel => r matches FetchReply::Reject(code) && code@ == rejection(
            "fetch() is not available — channel not set"@,
        ),
        Exchange::SendFailed(why) => r matches FetchReply::Reject(code) && code@ == rejection(
            "fetch channel error: "@ + why@,
        ),
        Exchange::Closed => r matches FetchReply::Reject(code) && code@ == rejection(
            "fetch channel closed"@,
        ),
        Exchange::Response(m) => match m.error {
            Some(why) => r matches FetchReply::Reject(code) && code@ == rejection(why@),
            None => r matches FetchReply::Resolve(o) && {
                &&& o.status == m.status
                &&& o.status_text == m.status_text
                &&& o.ok == (m.status < 400)
                &&& o.url == m.url
                &&& !o.body_used
                &&& o.response_type@ == "basic"@
                &&& o.headers == m.headers
                &&& o.body == m.body
            },
        },
    }
}

/// Code that rejects a promise with a message.
pub fn reject_code(message: &str) -> (r: String)
    ensures
        r@ == rejection(message@),
{
    text::concat3("Promise.reject(new Error('", message, "'))")
}

/// What `fetch` gives back for an exchange.
pub fn fetch_reply(e: Exchange) -> (r: FetchReply)
    ensures
        reply_of(e, r),
{
    match e {
        Exchange::NoChannel => FetchReply::Reject(
            reject_code("fetch() is not available — channel not set"),
        ),
        Exchange::SendFailed(why) => FetchReply::Reject(
            reject_code(text::concat("fetch channel error: ", why.as_str()).as_str()),
        ),
        Exchange::Closed => FetchReply::Reject(reject_code("fetch channel closed")),
        Exchange::Response(m) => match m.error {
            Some(why) => FetchReply::Reject(reject_code(why.as_str())),
            None => FetchReply::Resolve(
                ResponseObject {
                    status: m.status,
                    status_text: m.status_text,
                    ok: m.status < 400,
                    url: m.url,
                    body_used: false,
                    response_type: "basic",
                    headers: m.headers,
                    body: m.body,
                },
            ),
        },
    }
}

/// A hexadecimal digit, in lower case.
pub open spec fn hex_digit(n: int) -> char {
    (if n < 10 {
        n + '0' as int
    } else {
        n - 10 + 'a' as int
    }) as char
}

/// A character inside of a JSON string: `"`, `\` and control characters are
/// escaped, those without a letter of their own by their number.
pub open spec fn json_char(c: char) -> Seq<char> {
    if c == '"' {
        seq!['\\', '"']
    } else if c == '\\' {
        seq!['\\', '\\']
    } else if c as u32 == 0x08 {
        seq!['\\', 'b']
    } else if c as u32 == 0x09 {
        seq!['\\', 't']
    } else if c as u32 == 0x0a {
        seq!['\\', 'n']
    } else if c as u32 == 0x0c {
        seq!['\\', 'f']
    } else if c as u32 == 0x0d {
        seq!['\\', 'r']
    } else if (c as u32) < 0x20 {
        seq!['\\', 'u', '0', '0', hex_digit(c as int / 16), hex_digit(c as int % 16)]
    } else {
        seq![c]
    }
}

/// The JSON form of a string: its characters, escaped, between quotes.
pub open spec fn json_string(s: Seq<char>) -> Seq<char> {
    seq!['"'] + s.map_values(|c: char| json_char(c)).flatten() + seq!['"']
}

/// `serde_json::to_string` on a string: its JSON form, always.
#[verifier::external_body]
fn to_json_string(s: &str) -> (r: Option<String>)
    ensures
        codec::text_view(r) == Some(json_string(s@)),
{
    serde_json::to_string(s).ok()
}

/// The JSON form of a body, or another text in its place.
pub open spec fn body_json(json: Option<Seq<char>>, otherwise: Seq<char>) -> Seq<char> {
    match json {
        Some(t) => t,
        None => otherwise,
    }
}

/// The code of a promise for the text of a response, where `json` is the JSON
/// form of its body.
pub fn text_code_of(json: Option<String>) -> (r: String)
    ensures
        r@ == "Promise.resolve("@ + body_json(codec::text_view(json), "\"\""@) + ")"@,
{
    match json {
        Some(t) => text::concat3("Promise.resolve(", t.as_str(), ")"),
        None => text::concat3("Promise.resolve(", "\"\"", ")"),
    }
}

/// The code of a promise for what the body of a response says in JSON, where
/// `json` is the JSON form of the body as a string.
pub fn json_code_of(json: Option<String>) -> (r: String)
    ensures
        r@ == "Promise.resolve(JSON.parse("@ + body_json(codec::text_view(json), "null"@) + "))"@,
{
    match json {
        Some(t) => text::concat3("Promise.resolve(JSON.parse(", t.as_str(), "))"),
        None => text::concat3("Promise.resolve(JSON.parse(", "null", "))"),
    }
}

/// The code that `response.text()` runs.
pub fn text_code(body: &str) -> (r: String)
    ensures
        r@ == "Promise.resolve("@ + json_string(body@) + ")"@,
{
    text_code_of(to_json_string(body))
}

/// The code that `response.json()` runs.
pub fn json_code(body: &str) -> (r: String)
    ensures
        r@ == "Promise.resolve(JSON.parse("@ + json_string(body@) + "))"@,
{
    json_code_of(to_json_string(body))
}

/// The method of a request is the one that its options name, in upper case, and
/// `GET` where they name none; its body is the one that they hold.
pub proof fn lemma_request(m: String, b: String)
    ensures
        request_method(Some(FetchOptions { method: Some(m), body: Some(b) })) == case::uppercased(
            m@,
        ),
        request_method(Some(FetchOptions { method: None, body: Some(b) })) == seq!['G', 'E', 'T'],
        request_method(None) == seq!['G', 'E', 'T'],
        request_body(Some(FetchOptions { method: Some(m), body: Some(b) })) == Some(b@),
        request_body(Some(FetchOptions { method: Some(m), body: None })) is None,
        request_body(None) is None,
{
    reveal_strlit("GET");
    assert("GET"@ =~= seq!['G', 'E', 'T']);
}

/// A promise is resolved exactly if a response came and brings no error; it is
/// then the response that came, and a success below a status of 400. Else it is
/// rejected, and where the response brings an error or the sending failed, the
/// code says why.
pub proof fn lemma_reply(e: Exchange, r: FetchReply)
    requires
        reply_of(e, r),
    ensures
        r is Resolve <==> (e matches Exchange::Response(m) && m.error is None),
        (e matches Exchange::Response(m) ==> (r matches FetchReply::Resolve(o) ==> o.status == m.status
            && o.body@ == m.body@ && o.url@ == m.url@ && o.status_text@ == m.status_text@
            && o.headers@ == m.headers@ && (o.ok <==> m.status < 400) && !o.body_used)),
        (e matches Exchange::Response(m) ==> (m.error matches Some(why) ==> (
        r matches FetchReply::Reject(code) && text::contains_text(code@, why@)))),
        (e matches Exchange::SendFailed(why) ==> (r matches FetchReply::Reject(code)
            && text::contains_text(code@, why@))),
{
    match e {
        Exchange::Response(m) => {
            if m.error is Some {
                lemma_rejection(Seq::empty(), m.error->0@);
                assert(Seq::<char>::empty() + m.error->0@ =~= m.error->0@);
            }
        },
        Exchange::SendFailed(why) => {
            lemma_rejection("fetch channel error: "@, why@);
        },
        _ => {},
    }
}

proof fn lemma_rejection(a: Seq<char>, why: Seq<char>)
    ensures
        text::contains_text(rejection(a + why), why),
{
    let start = "Promise.reject(new Error('"@;
    let code = rejection(a + why);
    let i = (start.len() + a.len()) as int;
    assert(code.subrange(i, i + why.len()) =~= why);
    assert(text::occurs_at(code, why, i));
}

/// A string in JSON begins and ends with a quote and holds no control character
/// in between; a character that needs no escape stands for itself.
pub proof fn lemma_json_char(c: char)
    ensures
        json_char(c).len() >= 1,
        json_char(c).len() == 1 <==> c != '"' && c != '\\' && c as u32 >= 0x20,
        json_char(c).len() == 1 ==> json_char(c)[0] == c,
        json_char(c).len() > 1 ==> json_char(c)[0] == '\\',
        json_char(c).len() == 2 ==> {
            let d = json_char(c)[1];
            ||| c == '"' && d == '"'
            ||| c == '\\' && d == '\\'
            ||| c == '\n' && d == 'n'
            ||| c == '\r' && d == 'r'
            ||| c == '\t' && d == 't'
            ||| c as u32 == 8 && d == 'b'
            ||| c as u32 == 12 && d == 'f'
        },
{
}

/// The code of a promise speaks of the body where the body has a JSON form; only
/// where it has none, of what stands in its place.
pub proof fn lemma_body_json(json: Seq<char>, otherwise: Seq<char>)
    ensures
        body_json(Some(json), otherwise) == json,
        body_json(None, otherwise) == otherwise,
{
}

/// A string in JSON stands between double quotes. Of characters that need no
/// escape it holds those very characters, in order.
pub proof fn lemma_json_string(s: Seq<char>)
    ensures
        json_string(s).len() >= 2,
        json_string(s)[0] == '"',
        json_string(s).last() == '"',
        (forall|i: int|
            0 <= i < s.len() ==> #[trigger] s[i] != '"' && s[i] != '\\' && s[i] as u32 >= 0x20)
            ==> json_string(s).subrange(1, json_string(s).len() - 1) == s,
{
    let quoted = s.map_values(|c: char| json_char(c)).flatten();
    if forall|i: int|
        0 <= i < s.len() ==> #[trigger] s[i] != '"' && s[i] != '\\' && s[i] as u32 >= 0x20 {
        lemma_plain_string(s);
        assert(json_string(s).subrange(1, json_string(s).len() - 1) =~= quoted);
    }
}

proof fn lemma_plain_string(s: Seq<char>)
    requires
        forall|i: int|
            0 <= i < s.len() ==> #[trigger] s[i] != '"' && s[i] != '\\' && s[i] as u32 >= 0x20,
    ensures
        s.map_values(|c: char| json_char(c)).flatten() == s,
    decreases s.len(),
{
    let m = s.map_values(|c: char| json_char(c));
    if s.len() > 0 {
        let rest = s.drop_first();
        assert forall|i: int| 0 <= i < rest.len() implies #[trigger] rest[i] != '"' && rest[i]
            != '\\' && rest[i] as u32 >= 0x20 by {
            assert(rest[i] == s[i + 1]);
        }
        lemma_plain_string(rest);
        assert(m.drop_first() =~= rest.map_values(|c: char| json_char(c)));
        assert(m.first() == json_char(s[0]));
        assert(m.flatten() == m.first() + m.drop_first().flatten());
        assert(seq![s[0]] + rest =~= s);
    } else {
        assert(m.flatten() =~= s);
    }
}

/// A control character without a letter of its own is escaped by its number, in
/// four hexadecimal digits of lower case.
pub proof fn lemma_json_number(c: char)
    requires
        (c as u32) < 0x20,
        c as u32 != 0x08 && c as u32 != 0x09 && c as u32 != 0x0a && c as u32 != 0x0c && c as u32
            != 0x0d,
    ensures
        json_char(c).len() == 6,
        json_char(c).take(4) == seq!['\\', 'u', '0', '0'],
        json_char(c)[4] == '0' || json_char(c)[4] == '1',
        ({
            let d = json_char(c)[5];
            let low = if '0' <= d <= '9' {
                d as int - '0' as int
            } else {
                d as int - 'a' as int + 10
            };
            &&& '0' <= d <= '9' || 'a' <= d <= 'f'
            &&& c as int == 16 * (json_char(c)[4] as int - '0' as int) + low
        }),
{
    assert(json_char(c).take(4) =~= seq!['\\', 'u', '0', '0']);
}

/// The code of a rejection makes an error of the message and nothing else; a
/// response that came is of the type `basic`.
pub proof fn lemma_rejection_code(message: Seq<char>, m: FetchResponseMsg, o: ResponseObject)
    ensures
        rejection(message).len() == message.len() + 29,
        rejection(message).take(14) == "Promise.reject"@,
        rejection(message).subrange(26, 26 + message.len() as int) == message,
        rejection(message).skip(26 + message.len() as int) == seq!['\'', ')', ')'],
        m.error is None && reply_of(Exchange::Response(m), FetchReply::Resolve(o))
            ==> o.response_type@ == seq!['b', 'a', 's', 'i', 'c'],
{
    reveal_strlit("Promise.reject(new Error('");
    reveal_strlit("Promise.reject");
    reveal_strlit("'))");
    reveal_strlit("basic");
    let r = rejection(message);
    assert(r.take(14) =~= "Promise.reject"@);
    assert(r.subrange(26, 26 + message.len() as int) =~= message);
    assert(r.skip(26 + message.len() as int) =~= seq!['\'', ')', ')']);
    assert("basic"@ =~= seq!['b', 'a', 's', 'i', 'c']);
}

} // verus!
