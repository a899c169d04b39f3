//! The Fetch domain: interception of network requests.
//!
//! While the domain is enabled, a request whose URL matches one of the
//! patterns is paused, and the client is told of it. The client then has the
//! request go on, fail, or be answered with a response of its own.
use vstd::prelude::*;
use vstd::string::*;

use crate::cdp::protocol;
use crate::cdp::protocol::{CdpEvent, CdpEventView, DomainResult, Outcome};
use crate::codec;
use crate::json;
use crate::json::{Json, JsonView, Number, ObjectBuilder};
use crate::strmap::StringMap;
use crate::text;

verus! {

/// A pattern for requests to intercept.
#[derive(Debug, Clone)]
pub struct FetchPattern {
    /// URL pattern: a text with a `*` in front, at the end, at both ends or nowhere.
    pub url_pattern: String,
    /// Resource type filter (Document, Script, Image, XHR, etc.).
    pub resource_type: Option<String>,
    /// Request stage filter (Request, Response).
    pub request_stage: Option<String>,
}

/// What a pattern says.
pub struct FetchPatternView {
    pub url_pattern: Seq<char>,
    pub resource_type: Option<Seq<char>>,
    pub request_stage: Option<Seq<char>>,
}

impl View for FetchPattern {
    type V = FetchPatternView;

    open spec fn view(&self) -> FetchPatternView {
        FetchPatternView {
            url_pattern: self.url_pattern@,
            resource_type: codec::text_view(self.resource_type),
            request_stage: codec::text_view(self.request_stage),
        }
    }
}

/// The pattern that every request matches.
pub open spec fn match_all() -> FetchPatternView {
    FetchPatternView { url_pattern: Seq::empty(), resource_type: None, request_stage: None }
}

impl Default for FetchPattern {
    fn default() -> (r: Self)
        ensures
            r@ == match_all(),
    {
        FetchPattern { url_pattern: String::new(), resource_type: None, request_stage: None }
    }
}

/// What several patterns say.
pub open spec fn pattern_views(v: Seq<FetchPattern>) -> Seq<FetchPatternView> {
    v.map_values(|p: FetchPattern| p@)
}

/// A URL matches a URL pattern: any URL the empty pattern and `*`, one that
/// contains the text between two `*`, one that begins with the text before a
/// `*`, one that contains the text after a `*`, and else the pattern itself.
pub open spec fn url_matches(pattern: Seq<char>, url: Seq<char>) -> bool {
    let n = pattern.len() as int;
    if n == 0 || pattern == seq!['*'] {
        true
    } else if pattern[0] == '*' && pattern[n - 1] == '*' {
        text::contains_text(url, pattern.subrange(1, n - 1))
    } else if pattern[n - 1] == '*' {
        text::begins_with(url, pattern.take(n - 1))
    } else if pattern[0] == '*' {
        text::finishes_with(url, pattern.skip(1)) || text::contains_text(url, pattern.skip(1))
    } else {
        url == pattern
    }
}

impl FetchPattern {
    /// Whether a URL matches this pattern.
    pub fn matches_url(&self, url: &str) -> (r: bool)
        ensures
            r == url_matches(self.url_pattern@, url@),
    {
        let v: Vec<char> = text::chars_of(self.url_pattern.as_str());
        let n: usize = v.len();
        if n == 0 {
            return true;
        }
        let front: bool = v[0] == '*';
        let back: bool = v[n - 1] == '*';
        if n == 1 && front {
            assert(v@ =~= seq!['*']);
            return true;
        }
        if front && back {
            let inner: String = text::text_of(&v, 1, n - 1);
            text::contains(url, inner.as_str())
        } else if back {
            let prefix: String = text::text_of(&v, 0, n - 1);
            text::starts_with(url, prefix.as_str())
        } else if front {
            let suffix: String = text::text_of(&v, 1, n);
            assert(suffix@ =~= v@.skip(1));
            text::ends_with(url, suffix.as_str()) || text::contains(url, suffix.as_str())
        } else {
            text::same(url, self.url_pattern.as_str())
        }
    }
}

/// A URL matches one of several patterns.
pub open spec fn matches_some(url: Seq<char>, patterns: Seq<FetchPatternView>) -> bool {
    exists|i: int|
        0 <= i < patterns.len() && url_matches((#[trigger] patterns[i]).url_pattern, url)
}

/// Whether a URL matches one of several patterns.
pub fn matches_patterns(url: &str, patterns: &[FetchPattern]) -> (r: bool)
    ensures
        r == matches_some(url@, pattern_views(patterns@)),
{
    let mut i: usize = 0;
    while i < patterns.len()
        invariant
            i <= patterns.len(),
            forall|j: int|
                0 <= j < i ==> !url_matches(
                    (#[trigger] pattern_views(patterns@)[j]).url_pattern,
                    url@,
                ),
        decreases patterns.len() - i,
    {
        if patterns[i].matches_url(url) {
            assert(url_matches(pattern_views(patterns@)[i as int].url_pattern, url@));
            return true;
        }
        i = i + 1;
    }
    false
}

/// The pattern that a JSON object describes; nothing of any other value.
pub open spec fn described(v: JsonView) -> Option<FetchPatternView> {
    match v {
        JsonView::Object(_) => Some(
            FetchPatternView {
                url_pattern: match v.text_field("urlPattern"@) {
                    Some(t) => t,
                    None => seq!['*'],
                },
                resource_type: v.text_field("resourceType"@),
                request_stage: v.text_field("requestStage"@),
            },
        ),
        _ => None,
    }
}

fn owned(t: Option<&String>) -> (r: Option<String>)
    ensures
        codec::text_view(r) == match t {
            Some(s) => Some(s@),
            None => None,
        },
{
    match t {
        Some(s) => Some(s.clone()),
        None => None,
    }
}

/// Parses a pattern from its JSON form.
pub fn parse_fetch_pattern(value: &Json) -> (r: Option<FetchPattern>)
    ensures
        match r {
            Some(p) => described(value@) == Some(p@),
            None => described(value@) is None,
        },
{
    match value {
        Json::Object(_) => {},
        _ => {
            return None;
        },
    }
    let url_pattern: String = match value.get_text("urlPattern") {
        Some(t) => t.clone(),
        None => {
            proof {
                reveal_strlit("*");
                assert("*"@ =~= seq!['*']);
            }
            "*".to_owned()
        },
    };
    Some(
        FetchPattern {
            url_pattern,
            resource_type: owned(value.get_text("resourceType")),
            request_stage: owned(value.get_text("requestStage")),
        },
    )
}

/// The patterns that those of the items describe which describe one, in order.
pub open spec fn all_described(items: Seq<JsonView>) -> Seq<FetchPatternView>
    decreases items.len(),
{
    if items.len() == 0 {
        Seq::empty()
    } else {
        let front = all_described(items.drop_last());
        match described(items.last()) {
            Some(p) => front.push(p),
            None => front,
        }
    }
}

/// The patterns that `Fetch.enable` sets: those of its array `patterns`, or
/// without such an array the one that every request matches.
pub open spec fn enabled_patterns(params: Option<JsonView>) -> Seq<FetchPatternView> {
    match params {
        Some(p) => match p.array_field("patterns"@) {
            Some(items) => all_described(items),
            None => seq![match_all()],
        },
        None => seq![match_all()],
    }
}

/// A response that a client has given in place of the network's.
pub struct MockResponse {
    pub body: String,
    pub status: u16,
    pub headers: StringMap<String>,
    pub base64_encoded: bool,
}

/// What a response in place of the network's says.
#[verifier::ext_equal]
pub struct MockResponseView {
    pub body: Seq<char>,
    pub status: u16,
    pub headers: Map<Seq<char>, Seq<char>>,
    pub base64_encoded: bool,
}

impl View for MockResponse {
    type V = MockResponseView;

    open spec fn view(&self) -> MockResponseView {
        MockResponseView {
            body: self.body@,
            status: self.status,
            headers: self.headers@.map_values(|t: String| t@),
            base64_encoded: self.base64_encoded,
        }
    }
}

/// The state of interception. `P` is what is kept of a paused request.
pub struct Interception<P> {
    pub enabled: bool,
    pub patterns: Vec<FetchPattern>,
    /// Requests that wait for the client, by their ids.
    pub paused: StringMap<P>,
    /// Responses that the client gave, by the ids of the requests they answer.
    pub mocks: StringMap<MockResponse>,
}

/// What the state of interception is.
#[verifier::ext_equal]
pub struct InterceptionView<P> {
    pub enabled: bool,
    pub patterns: Seq<FetchPatternView>,
    pub paused: Map<Seq<char>, P>,
    pub mocks: Map<Seq<char>, MockResponseView>,
}

impl<P> View for Interception<P> {
    type V = InterceptionView<P>;

    open spec fn view(&self) -> InterceptionView<P> {
        InterceptionView {
            enabled: self.enabled,
            patterns: pattern_views(self.patterns@),
            paused: self.paused@,
            mocks: self.mocks@.map_values(|m: MockResponse| m@),
        }
    }
}

impl<P> InterceptionView<P> {
    /// The state once a request no longer waits and no response is kept for it.
    pub open spec fn released(self, id: Seq<char>) -> InterceptionView<P> {
        InterceptionView { paused: self.paused.remove(id), mocks: self.mocks.remove(id), ..self }
    }

    /// The state once a request has been answered with a response of the client's.
    pub open spec fn fulfilled(self, id: Seq<char>, mock: MockResponseView) -> InterceptionView<P> {
        InterceptionView {
            paused: self.paused.remove(id),
            mocks: self.mocks.insert(id, mock),
            ..self
        }
    }
}

/// The text member `key` of the parameters, or a text in its place.
pub open spec fn text_or(p: JsonView, key: Seq<char>, default: Seq<char>) -> Seq<char> {
    match p.text_field(key) {
        Some(t) => t,
        None => default,
    }
}

fn get_or(p: &Json, key: &str, default: &str) -> (r: String)
    ensures
        r@ == text_or(p@, key@, default@),
{
    match p.get_text(key) {
        Some(t) => t.clone(),
        None => default.to_owned(),
    }
}

/// The name and value of a header, where an item has both as texts.
pub open spec fn header_of(item: JsonView) -> Option<(Seq<char>, Seq<char>)> {
    match (item.text_field("name"@), item.text_field("value"@)) {
        (Some(k), Some(v)) => Some((k, v)),
        _ => None,
    }
}

/// The headers of those items that have a name and a value, in order.
pub open spec fn headers_of(items: Seq<JsonView>) -> Seq<(Seq<char>, Seq<char>)>
    decreases items.len(),
{
    if items.len() == 0 {
        Seq::empty()
    } else {
        let front = headers_of(items.drop_last());
        match header_of(items.last()) {
            Some(h) => front.push(h),
            None => front,
        }
    }
}

/// Headers by their names: of several with one name the last.
pub open spec fn header_map(pairs: Seq<(Seq<char>, Seq<char>)>) -> Map<Seq<char>, Seq<char>>
    decreases pairs.len(),
{
    if pairs.len() == 0 {
        Map::empty()
    } else {
        header_map(pairs.drop_last()).insert(pairs.last().0, pairs.last().1)
    }
}

/// The names of headers, in the order in which they first occur.
pub open spec fn header_names(pairs: Seq<(Seq<char>, Seq<char>)>) -> Seq<Seq<char>>
    decreases pairs.len(),
{
    if pairs.len() == 0 {
        Seq::empty()
    } else {
        let front = header_names(pairs.drop_last());
        if header_map(pairs.drop_last()).contains_key(pairs.last().0) {
            front
        } else {
            front.push(pairs.last().0)
        }
    }
}

/// Headers as a JSON object.
pub open spec fn header_object(pairs: Seq<(Seq<char>, Seq<char>)>) -> JsonView {
    let names = header_names(pairs);
    JsonView::Object(
        Seq::new(
            names.len(),
            |i: int| (names[i], JsonView::Text(header_map(pairs)[names[i]])),
        ),
    )
}

/// A map holds the headers `pairs`.
pub open spec fn holds_headers(
    m: StringMap<String>,
    pairs: Seq<(Seq<char>, Seq<char>)>,
) -> bool {
    &&& m.wf()
    &&& m@.map_values(|t: String| t@) == header_map(pairs)
    &&& m.keys() == header_names(pairs)
}

fn put_header(m: &mut StringMap<String>, name: &str, value: &str, Ghost(pairs): Ghost<
    Seq<(Seq<char>, Seq<char>)>,
>)
    requires
        holds_headers(*old(m), pairs),
    ensures
        holds_headers(*final(m), pairs.push((name@, value@))),
{
    let ghost before = m@;
    m.insert(name.to_owned(), value.to_owned());
    proof {
        let now = pairs.push((name@, value@));
        assert(now.drop_last() =~= pairs);
        assert(m@.map_values(|t: String| t@) =~= header_map(now));
        assert(before.map_values(|t: String| t@).contains_key(name@) == before.contains_key(name@));
    }
}

fn headers_json(m: &StringMap<String>, Ghost(pairs): Ghost<Seq<(Seq<char>, Seq<char>)>>) -> (r: Json)
    requires
        holds_headers(*m, pairs),
    ensures
        r@ == header_object(pairs),
{
    let mut b: ObjectBuilder = ObjectBuilder::new();
    let mut i: usize = 0;
    while i < m.len()
        invariant
            i <= m.keys().len(),
            holds_headers(*m, pairs),
            b@.len() == i,
            forall|j: int|
                0 <= j < i ==> b@[j] == (
                    m.keys()[j],
                    JsonView::Text(header_map(pairs)[m.keys()[j]]),
                ),
        decreases m.keys().len() - i,
    {
        proof {
            m.lemma_keys();
            assert(m.keys().contains(m.keys()[i as int]));
            assert(m@.map_values(|t: String| t@)[m.keys()[i as int]] == m@[m.keys()[i as int]]@);
        }
        let name: String = match m.key_at(i) {
            Some(k) => k.clone(),
            None => String::new(),
        };
        b = b.with_text(name.as_str(), m.value_at(i).as_str());
        i = i + 1;
    }
    let r: Json = b.build();
    assert(r@->Object_0 =~= header_object(pairs)->Object_0);
    r
}

/// An integer reduced to sixteen bits, as a cast to `u16` does.
pub open spec fn low_16(n: int) -> u16 {
    (n % 65536) as u16
}

fn cast_u16(n: i64) -> (r: u16)
    ensures
        r == low_16(n as int),
{
    if n >= 0 {
        ((n as u64) % 65536) as u16
    } else {
        let k: u64 = (-(n + 1)) as u64;
        let m: u64 = k % 65536;
        proof {
            assert(n == -65536 * (k / 65536) - m - 1);
            assert((n as int) % 65536 == 65535 - m);
        }
        (65535 - m) as u16
    }
}

/// The status that a client's response has: its `statusCode`, or 200.
pub open spec fn mock_status(p: JsonView) -> u16 {
    match p.int_field("statusCode"@) {
        Some(n) => low_16(n),
        None => 200,
    }
}

/// Whether a client says that the body of its response is in base64.
pub open spec fn mock_encoded(p: JsonView) -> bool {
    match p.bool_field("base64Encoded"@) {
        Some(b) => b,
        None => false,
    }
}

/// The headers of a client's response.
pub open spec fn mock_headers(p: JsonView) -> Seq<(Seq<char>, Seq<char>)> {
    match p.array_field("responseHeaders"@) {
        Some(items) => headers_of(items),
        None => Seq::empty(),
    }
}

/// The response that a client gives in place of the network's.
pub open spec fn mock_of(p: JsonView) -> MockResponseView {
    MockResponseView {
        body: text_or(p, "body"@, ""@),
        status: mock_status(p),
        headers: header_map(mock_headers(p)),
        base64_encoded: mock_encoded(p),
    }
}

/// The answer to `Fetch.fulfillRequest`.
pub open spec fn fulfill_reply(p: JsonView) -> JsonView {
    JsonView::Object(
        seq![
            ("responseCode"@, JsonView::Number(Number::PosInt(mock_status(p) as u64))),
            ("responsePhrase"@, JsonView::Text(text_or(p, "statusText"@, "OK"@))),
            ("responseHeaders"@, header_object(mock_headers(p))),
            ("binary"@, JsonView::Bool(mock_encoded(p))),
        ],
    )
}

/// The outcome of a command of the Fetch domain.
pub open spec fn fetch_outcome(method: Seq<char>, params: Option<JsonView>) -> Outcome {
    if method == "enable"@ || method == "disable"@ || method == "restoreResponseBodyAsStream"@ {
        protocol::done()
    } else if method == "continueRequest"@ || method == "failRequest"@ || method
        == "continueResponse"@ {
        match params {
            Some(_) => protocol::done(),
            None => protocol::fails(protocol::INVALID_PARAMS, method + " requires parameters"@),
        }
    } else if method == "fulfillRequest"@ {
        match params {
            Some(p) => protocol::gives(fulfill_reply(p)),
            None => protocol::fails(protocol::INVALID_PARAMS, method + " requires parameters"@),
        }
    } else if method == "getResponseBody"@ {
        protocol::gives(
            JsonView::Object(
                seq![("body"@, JsonView::Text(""@)), ("base64Encoded"@, JsonView::Bool(false))],
            ),
        )
    } else if method == "takeResponseBodyAsStream"@ {
        protocol::gives(
            JsonView::Object(seq![("streamId"@, JsonView::Number(Number::PosInt(0)))]),
        )
    } else {
        Err(protocol::unknown_method("Fetch"@, method))
    }
}

/// The state that a command of the Fetch domain leaves.
pub open spec fn fetch_state<P>(
    method: Seq<char>,
    params: Option<JsonView>,
    s: InterceptionView<P>,
) -> InterceptionView<P> {
    if method == "enable"@ {
        InterceptionView { enabled: true, patterns: enabled_patterns(params), ..s }
    } else if method == "disable"@ {
        InterceptionView { enabled: false, patterns: Seq::empty(), ..s }
    } else {
        match params {
            None => s,
            Some(p) => {
                let id = text_or(p, "requestId"@, ""@);
                if method == "continueRequest"@ || method == "failRequest"@ {
                    s.released(id)
                } else if method == "continueResponse"@ {
                    if p.text_field("requestId"@) is Some {
                        s.released(id)
                    } else {
                        s
                    }
                } else if method == "fulfillRequest"@ {
                    s.fulfilled(id, mock_of(p))
                } else {
                    s
                }
            },
        }
    }
}

impl<P> Interception<P> {
    /// The maps hold no id twice.
    pub open spec fn wf(&self) -> bool {
        &&& self.paused.wf()
        &&& self.mocks.wf()
    }

    /// Interception that is switched off.
    pub fn new() -> (r: Interception<P>)
        ensures
            r.wf(),
            r@ == (InterceptionView::<P> {
                enabled: false,
                patterns: Seq::empty(),
                paused: Map::empty(),
                mocks: Map::empty(),
            }),
    {
        let r: Interception<P> = Interception {
            enabled: false,
            patterns: Vec::new(),
            paused: StringMap::new(),
            mocks: StringMap::new(),
        };
        proof {
            assert(r@.patterns =~= Seq::empty());
            assert(r@.mocks =~= Map::empty());
        }
        r
    }

    /// Whether a request is to be paused.
    pub fn intercepts(&self, url: &str) -> (r: bool)
        ensures
            r == (self@.enabled && matches_some(url@, self@.patterns)),
    {
        self.enabled && matches_patterns(url, self.patterns.as_slice())
    }

    fn release(&mut self, id: &str)
        requires
            old(self).wf(),
        ensures
            final(self).wf(),
            final(self)@ == old(self)@.released(id@),
    {
        self.paused.remove(id);
        self.mocks.remove(id);
        proof {
            assert(self@ =~= old(self)@.released(id@));
        }
    }
}

/// `Fetch.enable`: requests that match one of the patterns are paused from now on.
pub fn enable<P>(params: Option<&Json>, state: &mut Interception<P>) -> (r: DomainResult)
    requires
        old(state).wf(),
    ensures
        final(state).wf(),
        protocol::outcome(r) == protocol::done(),
        final(state)@ == (InterceptionView {
            enabled: true,
            patterns: enabled_patterns(params_view(params)),
            ..old(state)@
        }),
{
    let mut patterns: Vec<FetchPattern> = Vec::new();
    let items: Option<&Vec<Json>> = match params {
        Some(p) => p.get_array("patterns"),
        None => None,
    };
    match items {
        None => {
            patterns.push(FetchPattern::default());
            assert(pattern_views(patterns@) =~= seq![match_all()]);
        },
        Some(v) => {
            let ghost all = json::item_views(v@);
            let mut i: usize = 0;
            proof {
                assert(all.take(0) =~= Seq::empty());
                assert(pattern_views(patterns@) =~= Seq::empty());
            }
            while i < v.len()
                invariant
                    i <= v.len(),
                    all == json::item_views(v@),
                    pattern_views(patterns@) == all_described(all.take(i as int)),
                decreases v.len() - i,
            {
                proof {
                    assert(all.take(i + 1).drop_last() =~= all.take(i as int));
                    assert(all.take(i + 1).last() == v@[i as int]@);
                }
                match parse_fetch_pattern(&v[i]) {
                    Some(p) => {
                        assert(pattern_views(patterns@.push(p)) =~= pattern_views(patterns@).push(p@));
                        patterns.push(p);
                    },
                    None => {},
                }
                i = i + 1;
            }
            assert(all.take(i as int) =~= all);
        },
    }
    state.enabled = true;
    state.patterns = patterns;
    protocol::succeed()
}

/// What the parameters of a command are.
pub open spec fn params_view(p: Option<&Json>) -> Option<JsonView> {
    match p {
        Some(j) => Some(j@),
        None => None,
    }
}

/// `Fetch.disable`: no request is paused any longer.
pub fn disable<P>(state: &mut Interception<P>) -> (r: DomainResult)
    requires
        old(state).wf(),
    ensures
        final(state).wf(),
        protocol::outcome(r) == protocol::done(),
        final(state)@ == (InterceptionView {
            enabled: false,
            patterns: Seq::empty(),
            ..old(state)@
        }),
{
    state.enabled = false;
    state.patterns = Vec::new();
    assert(pattern_views(state.patterns@) =~= Seq::empty());
    protocol::succeed()
}

fn requires_parameters(method: &str) -> (r: DomainResult)
    ensures
        protocol::outcome(r) == protocol::fails(
            protocol::INVALID_PARAMS,
            method@ + " requires parameters"@,
        ),
{
    Err(
        protocol::error(
            protocol::INVALID_PARAMS,
            text::concat(method, " requires parameters").as_str(),
        ),
    )
}

/// `Fetch.fulfillRequest`: a paused request is answered with a response of the client's.
pub fn fulfill_request<P>(p: &Json, state: &mut Interception<P>) -> (r: DomainResult)
    requires
        old(state).wf(),
    ensures
        final(state).wf(),
        protocol::outcome(r) == protocol::gives(fulfill_reply(p@)),
        final(state)@ == old(state)@.fulfilled(text_or(p@, "requestId"@, ""@), mock_of(p@)),
{
    let id: String = get_or(p, "requestId", "");
    let status: u16 = match p.get_i64("statusCode") {
        Some(n) => cast_u16(n),
        None => 200,
    };
    let phrase: String = get_or(p, "statusText", "OK");
    let body: String = get_or(p, "body", "");
    let encoded: bool = match p.get_bool("base64Encoded") {
        Some(b) => b,
        None => false,
    };
    let mut headers: StringMap<String> = StringMap::new();
    let ghost pairs: Seq<(Seq<char>, Seq<char>)> = Seq::empty();
    assert(headers@.map_values(|t: String| t@) =~= header_map(pairs));
    match p.get_array("responseHeaders") {
        None => {},
        Some(v) => {
            let ghost all = json::item_views(v@);
            let mut i: usize = 0;
            assert(all.take(0) =~= Seq::empty());
            while i < v.len()
                invariant
                    i <= v.len(),
                    all == json::item_views(v@),
                    pairs == headers_of(all.take(i as int)),
                    holds_headers(headers, pairs),
                decreases v.len() - i,
            {
                proof {
                    assert(all.take(i + 1).drop_last() =~= all.take(i as int));
                    assert(all.take(i + 1).last() == v@[i as int]@);
                }
                match (v[i].get_text("name"), v[i].get_text("value")) {
                    (Some(k), Some(x)) => {
                        put_header(&mut headers, k.as_str(), x.as_str(), Ghost(pairs));
                        proof {
                            pairs = pairs.push((k@, x@));
                        }
                    },
                    _ => {},
                }
                i = i + 1;
            }
            assert(all.take(i as int) =~= all);
        },
    }
    assert(pairs == mock_headers(p@));
    let headers_reply: Json = headers_json(&headers, Ghost(pairs));
    let mock: MockResponse = MockResponse { body, status, headers, base64_encoded: encoded };
    let ghost kept = mock@;
    state.mocks.insert(id.clone(), mock);
    state.paused.remove(id.as_str());
    proof {
        assert(kept =~= mock_of(p@));
        assert(state@ =~= old(state)@.fulfilled(id@, kept));
    }
    let reply: Json = ObjectBuilder::new().with("responseCode", Json::whole(status as u64)).with_text(
        "responsePhrase",
        phrase.as_str(),
    ).with("responseHeaders", headers_reply).with("binary", Json::Bool(encoded)).build();
    assert(reply@->Object_0 =~= fulfill_reply(p@)->Object_0);
    Ok(Some(reply))
}

/// Performs a command of the Fetch domain.
pub fn handle<P>(method: &str, params: Option<&Json>, state: &mut Interception<P>) -> (r: DomainResult)
    requires
        old(state).wf(),
    ensures
        final(state).wf(),
        protocol::outcome(r) == fetch_outcome(method@, params_view(params)),
        final(state)@ == fetch_state(method@, params_view(params), old(state)@),
{
    if text::same(method, "enable") {
        return enable(params, state);
    }
    if text::same(method, "disable") {
        return disable(state);
    }
    if text::same(method, "restoreResponseBodyAsStream") {
        proof {
            lemma_names_differ();
        }
        return protocol::succeed();
    }
    if text::same(method, "continueRequest") || text::same(method, "failRequest") {
        match params {
            None => {
                return requires_parameters(method);
            },
            Some(p) => {
                let id: String = get_or(p, "requestId", "");
                state.release(id.as_str());
                return protocol::succeed();
            },
        }
    }
    if text::same(method, "continueResponse") {
        match params {
            None => {
                return requires_parameters(method);
            },
            Some(p) => {
                match p.get_text("requestId") {
                    Some(id) => {
                        state.release(id.as_str());
                    },
                    None => {},
                }
                return protocol::succeed();
            },
        }
    }
    if text::same(method, "fulfillRequest") {
        return match params {
            None => requires_parameters(method),
            Some(p) => fulfill_request(p, state),
        };
    }
    if text::same(method, "getResponseBody") {
        let reply: Json = ObjectBuilder::new().with_text("body", "").with(
            "base64Encoded",
            Json::Bool(false),
        ).build();
        assert(reply@->Object_0 =~= seq![
            ("body"@, JsonView::Text(""@)),
            ("base64Encoded"@, JsonView::Bool(false)),
        ]);
        return Ok(Some(reply));
    }
    if text::same(method, "takeResponseBodyAsStream") {
        let reply: Json = ObjectBuilder::new().with("streamId", Json::whole(0)).build();
        assert(reply@->Object_0 =~= seq![("streamId"@, JsonView::Number(Number::PosInt(0)))]);
        return Ok(Some(reply));
    }
    Err(protocol::not_implemented("Fetch", method))
}

/// The commands that change nothing have names of their own.
proof fn lemma_names_differ()
    ensures
        "restoreResponseBodyAsStream"@ != "continueRequest"@,
        "restoreResponseBodyAsStream"@ != "failRequest"@,
        "restoreResponseBodyAsStream"@ != "continueResponse"@,
        "restoreResponseBodyAsStream"@ != "fulfillRequest"@,
{
    reveal_strlit("restoreResponseBodyAsStream");
    reveal_strlit("continueRequest");
    reveal_strlit("failRequest");
    reveal_strlit("continueResponse");
    reveal_strlit("fulfillRequest");
    assert("restoreResponseBodyAsStream"@.len() == 27);
}

/// What the names and values of headers say.
pub open spec fn pair_views(v: Seq<(String, String)>) -> Seq<(Seq<char>, Seq<char>)> {
    v.map_values(|p: (String, String)| (p.0@, p.1@))
}

/// What `Fetch.requestPaused` says of a request.
pub open spec fn paused_params(
    request_id: Seq<char>,
    url: Seq<char>,
    method: Seq<char>,
    headers: Seq<(Seq<char>, Seq<char>)>,
    resource_type: Seq<char>,
) -> JsonView {
    JsonView::Object(
        seq![
            ("requestId"@, JsonView::Text(request_id)),
            (
                "request"@,
                JsonView::Object(
                    seq![
                        ("url"@, JsonView::Text(url)),
                        ("method"@, JsonView::Text(method)),
                        ("headers"@, header_object(headers)),
                        ("initialPriority"@, JsonView::Text("VeryHigh"@)),
                        ("urlFragment"@, JsonView::Text(""@)),
                        ("postData"@, JsonView::Null),
                    ],
                ),
            ),
            ("resourceType"@, JsonView::Text(resource_type)),
            ("frameId"@, JsonView::Text("main"@)),
            ("networkIntercepted"@, JsonView::Bool(true)),
        ],
    )
}

/// The event that tells a client of a paused request.
pub fn emit_request_paused(
    request_id: &str,
    url: &str,
    method: &str,
    headers: &[(String, String)],
    resource_type: &str,
) -> (r: CdpEvent)
    ensures
        r@ == (CdpEventView {
            method: "Fetch.requestPaused"@,
            params: paused_params(request_id@, url@, method@, pair_views(headers@), resource_type@),
        }),
{
    let mut map: StringMap<String> = StringMap::new();
    let ghost all = pair_views(headers@);
    let mut i: usize = 0;
    proof {
        assert(all.take(0) =~= Seq::empty());
        assert(map@.map_values(|t: String| t@) =~= header_map(all.take(0)));
    }
    while i < headers.len()
        invariant
            i <= headers.len(),
            all == pair_views(headers@),
            holds_headers(map, all.take(i as int)),
        decreases headers.len() - i,
    {
        let pair: &(String, String) = &headers[i];
        put_header(&mut map, pair.0.as_str(), pair.1.as_str(), Ghost(all.take(i as int)));
        assert(all.take(i + 1) =~= all.take(i as int).push((pair.0@, pair.1@)));
        i = i + 1;
    }
    assert(all.take(i as int) =~= all);
    let request: Json = ObjectBuilder::new().with_text("url", url).with_text("method", method).with(
        "headers",
        headers_json(&map, Ghost(all)),
    ).with_text("initialPriority", "VeryHigh").with_text("urlFragment", "").with(
        "postData",
        Json::Null,
    ).build();
    let params: Json = ObjectBuilder::new().with_text("requestId", request_id).with(
        "request",
        request,
    ).with_text("resourceType", resource_type).with_text("frameId", "main").with(
        "networkIntercepted",
        Json::Bool(true),
    ).build();
    proof {
        let want = paused_params(request_id@, url@, method@, all, resource_type@);
        assert(request@->Object_0 =~= want->Object_0[1].1->Object_0);
        assert(params@->Object_0 =~= want->Object_0);
    }
    CdpEvent { method: "Fetch.requestPaused".to_owned(), params }
}

/// The pattern that `Fetch.enable` sets without parameters has every request intercepted.
pub proof fn lemma_enable_all<P>(s: InterceptionView<P>, url: Seq<char>)
    ensures
        fetch_state("enable"@, None, s).enabled,
        matches_some(url, fetch_state("enable"@, None, s).patterns),
{
    let p = fetch_state("enable"@, None, s).patterns;
    assert(url_matches(p[0].url_pattern, url));
}

/// After `Fetch.disable` no request is intercepted, whatever was enabled before.
pub proof fn lemma_disable<P>(params: Option<JsonView>, s: InterceptionView<P>, url: Seq<char>)
    ensures
        !fetch_state("disable"@, params, s).enabled,
        !matches_some(url, fetch_state("disable"@, params, s).patterns),
{
    reveal_strlit("disable");
    reveal_strlit("enable");
    assert("disable"@.len() == 7);
}

/// A request that a client has continued, failed or fulfilled, or whose
/// response it has continued, no longer waits; a fulfilled one is answered with
/// the client's response, and other requests are not touched.
pub proof fn lemma_released<P>(
    method: Seq<char>,
    p: JsonView,
    s: InterceptionView<P>,
    other: Seq<char>,
)
    requires
        method == "continueRequest"@ || method == "failRequest"@ || method == "fulfillRequest"@ || (
        method == "continueResponse"@ && p.text_field("requestId"@) is Some),
        other != text_or(p, "requestId"@, ""@),
    ensures
        ({
            let id = text_or(p, "requestId"@, ""@);
            let t = fetch_state(method, Some(p), s);
            &&& !t.paused.contains_key(id)
            &&& t.mocks.contains_key(id) <==> method == "fulfillRequest"@
            &&& t.mocks.contains_key(id) ==> t.mocks[id] == mock_of(p)
            &&& t.paused.contains_key(other) <==> s.paused.contains_key(other)
            &&& s.paused.contains_key(other) ==> t.paused[other] == s.paused[other]
            &&& t.mocks.contains_key(other) <==> s.mocks.contains_key(other)
            &&& s.mocks.contains_key(other) ==> t.mocks[other] == s.mocks[other]
            &&& t.enabled == s.enabled
            &&& t.patterns == s.patterns
        }),
{
    reveal_strlit("continueRequest");
    reveal_strlit("failRequest");
    reveal_strlit("fulfillRequest");
    reveal_strlit("continueResponse");
    reveal_strlit("enable");
    reveal_strlit("disable");
    assert("continueRequest"@.len() == 15);
    assert("failRequest"@.len() == 11);
    assert("fulfillRequest"@.len() == 14);
    assert("continueResponse"@.len() == 16);
}

/// A pattern that is not empty and holds no `*` is matched by one URL alone: itself.
pub proof fn lemma_exact_pattern(pattern: Seq<char>, a: Seq<char>, b: Seq<char>)
    requires
        pattern.len() > 0,
        !pattern.contains('*'),
    ensures
        url_matches(pattern, pattern),
        url_matches(pattern, a) && url_matches(pattern, b) ==> a == b,
        url_matches(pattern, a) ==> a == pattern,
{
    assert(pattern[0] != '*') by {
        assert(pattern.contains(pattern[0]));
    }
    assert(pattern[pattern.len() - 1] != '*') by {
        assert(pattern.contains(pattern[pattern.len() - 1]));
    }
}

/// A pattern with a `*` behind it is matched by the URLs that begin with what
/// stands before it, and by no other.
pub proof fn lemma_prefix_pattern(p: Seq<char>, url: Seq<char>, rest: Seq<char>)
    requires
        p.len() > 0,
        p[0] != '*',
    ensures
        url_matches(p.push('*'), p + rest),
        url_matches(p.push('*'), url) ==> exists|r: Seq<char>| url == #[trigger] (p + r),
{
    let pattern = p.push('*');
    assert(pattern.take(pattern.len() - 1) =~= p);
    assert((p + rest).subrange(0, p.len() as int) =~= p);
    if url_matches(pattern, url) {
        assert(url =~= p + url.skip(p.len() as int));
    }
}

/// A pattern with a `*` in front, or with one at both ends, is matched by the
/// URLs that hold the rest of it somewhere, and by no other.
pub proof fn lemma_inner_pattern(p: Seq<char>, url: Seq<char>, a: Seq<char>, b: Seq<char>)
    requires
        p.len() > 0,
        p.last() != '*',
    ensures
        url_matches(seq!['*'] + p, a + p + b),
        url_matches(seq!['*'] + p + seq!['*'], a + p + b),
        url_matches(seq!['*'] + p, url) ==> exists|x: Seq<char>, y: Seq<char>|
            url == #[trigger] (x + p + y),
        url_matches(seq!['*'] + p + seq!['*'], url) ==> exists|x: Seq<char>, y: Seq<char>|
            url == #[trigger] (x + p + y),
{
    let one = seq!['*'] + p;
    let two = seq!['*'] + p + seq!['*'];
    assert(one.skip(1) =~= p);
    assert(two.subrange(1, two.len() - 1) =~= p);
    let s = a + p + b;
    assert(s.subrange(a.len() as int, a.len() as int + p.len()) =~= p);
    assert(text::occurs_at(s, p, a.len() as int));
    if url_matches(one, url) || url_matches(two, url) {
        let i = if text::finishes_with(url, p) {
            url.len() - p.len()
        } else {
            choose|i: int| text::occurs_at(url, p, i)
        };
        assert(text::occurs_at(url, p, i));
        assert(url =~= url.take(i) + p + url.skip(i + p.len()));
    }
}

/// The empty pattern and `*` are matched by every URL.
pub proof fn lemma_any_pattern(url: Seq<char>)
    ensures
        url_matches(Seq::empty(), url),
        url_matches(seq!['*'], url),
        url_matches(seq!['*', '*'], url),
{
    let none = seq!['*', '*'].subrange(1, 1);
    assert(url.subrange(0, 0) =~= none);
    assert(text::occurs_at(url, none, 0));
}

/// A URL is intercepted by patterns if it is by one of them: no pattern takes
/// away what another one matches, and without patterns nothing is matched.
pub proof fn lemma_one_pattern_is_enough(
    url: Seq<char>,
    patterns: Seq<FetchPatternView>,
    p: FetchPatternView,
)
    ensures
        matches_some(url, patterns.push(p)) <==> matches_some(url, patterns) || url_matches(
            p.url_pattern,
            url,
        ),
        !matches_some(url, Seq::empty()),
{
    let all = patterns.push(p);
    if matches_some(url, patterns) {
        let i = choose|i: int|
            0 <= i < patterns.len() && url_matches((#[trigger] patterns[i]).url_pattern, url);
        assert(all[i] == patterns[i]);
    }
    if url_matches(p.url_pattern, url) {
        assert(all[patterns.len() as int] == p);
    }
    if matches_some(url, all) {
        let i = choose|i: int|
            0 <= i < all.len() && url_matches((#[trigger] all[i]).url_pattern, url);
        if i < patterns.len() {
            assert(all[i] == patterns[i]);
        }
    }
}

/// A pattern is what its members `urlPattern`, `resourceType` and
/// `requestStage` say; without a URL pattern it matches every URL. Only an
/// object describes one.
pub proof fn lemma_described(v: JsonView, url: Seq<char>, t: Seq<char>)
    ensures
        described(v) is Some <==> v is Object,
        v.field("urlPattern"@) == Some(JsonView::Text(t)) ==> (described(v) matches Some(p)
            && p.url_pattern == t),
        v is Object && v.field("urlPattern"@) is None ==> (described(v) matches Some(p)
            && url_matches(p.url_pattern, url)),
        v.field("resourceType"@) == Some(JsonView::Text(t)) ==> (described(v) matches Some(p)
            && p.resource_type == Some(t)),
        v.field("requestStage"@) == Some(JsonView::Text(t)) ==> (described(v) matches Some(p)
            && p.request_stage == Some(t)),
        v is Object && v.field("resourceType"@) is None ==> (described(v) matches Some(p)
            && p.resource_type is None),
        v is Object && v.field("requestStage"@) is None ==> (described(v) matches Some(p)
            && p.request_stage is None),
{
}

/// The patterns that `Fetch.enable` sets are those that its array `patterns`
/// describes, in order: each object its own, anything else none. A URL is
/// intercepted from then on exactly if one of them matches it.
pub proof fn lemma_enabled<P>(p: JsonView, items: Seq<JsonView>, s: InterceptionView<P>, url: Seq<char>)
    requires
        p.field("patterns"@) == Some(JsonView::Array(items)),
    ensures
        ({
            let t = fetch_state("enable"@, Some(p), s);
            let kept = items.filter(|v: JsonView| v is Object);
            &&& t.enabled
            &&& t.patterns.len() == kept.len()
            &&& forall|i: int|
                0 <= i < kept.len() ==> Some(#[trigger] t.patterns[i]) == described(kept[i])
            &&& matches_some(url, t.patterns) <==> exists|i: int|
                0 <= i < kept.len() && #[trigger] url_matches(t.patterns[i].url_pattern, url)
            &&& t.paused == s.paused
            &&& t.mocks == s.mocks
        }),
{
    lemma_all_described(items);
    let t = fetch_state("enable"@, Some(p), s);
    if matches_some(url, t.patterns) {
        let i = choose|i: int|
            0 <= i < t.patterns.len() && url_matches((#[trigger] t.patterns[i]).url_pattern, url);
        assert(url_matches(t.patterns[i].url_pattern, url));
    }
}

proof fn lemma_all_described(items: Seq<JsonView>)
    ensures
        ({
            let kept = items.filter(|v: JsonView| v is Object);
            &&& all_described(items).len() == kept.len()
            &&& forall|i: int|
                0 <= i < kept.len() ==> Some(#[trigger] all_described(items)[i]) == described(kept[i])
        }),
    decreases items.len(),
{
    reveal(Seq::filter);
    if items.len() > 0 {
        lemma_all_described(items.drop_last());
    }
}

/// The response that a client gives is what its parameters say: the member
/// `body`, the status code of `statusCode`, whether it is in base64 as
/// `base64Encoded` says. What is missing is empty, 200 and not.
pub proof fn lemma_mock(p: JsonView, t: Seq<char>, n: u64)
    ensures
        p.field("body"@) == Some(JsonView::Text(t)) ==> mock_of(p).body == t,
        p.field("body"@) is None ==> mock_of(p).body.len() == 0,
        n < 65536 && p.field("statusCode"@) == Some(JsonView::Number(Number::PosInt(n))) ==> mock_of(
            p,
        ).status == n,
        p.field("statusCode"@) is None ==> mock_of(p).status == 200,
        p.field("base64Encoded"@) == Some(JsonView::Bool(true)) ==> mock_of(p).base64_encoded,
        p.field("base64Encoded"@) == Some(JsonView::Bool(false)) ==> !mock_of(p).base64_encoded,
        p.field("base64Encoded"@) is None ==> !mock_of(p).base64_encoded,
        p.field("responseHeaders"@) is None ==> mock_of(p).headers.dom().is_empty(),
        p.field("requestId"@) == Some(JsonView::Text(t)) ==> text_or(p, "requestId"@, ""@) == t,
{
    reveal_strlit("");
    if p.field("responseHeaders"@) is None {
        assert(mock_of(p).headers.dom() =~= Set::empty());
    }
}

/// The headers of a client's response are those of its items that have a name
/// and a value: each name with the value that the last of them gives it.
pub proof fn lemma_mock_headers(p: JsonView, items: Seq<JsonView>, i: int, name: Seq<char>, value: Seq<char>)
    requires
        p.field("responseHeaders"@) == Some(JsonView::Array(items)),
        0 <= i < items.len(),
        items[i].field("name"@) == Some(JsonView::Text(name)),
        items[i].field("value"@) == Some(JsonView::Text(value)),
        forall|j: int|
            i < j < items.len() ==> (#[trigger] items[j]).field("name"@) != Some(
                JsonView::Text(name),
            ),
    ensures
        mock_of(p).headers.contains_key(name),
        mock_of(p).headers[name] == value,
{
    lemma_headers_last(items, i, name, value);
}

proof fn lemma_headers_last(items: Seq<JsonView>, i: int, name: Seq<char>, value: Seq<char>)
    requires
        0 <= i < items.len(),
        items[i].field("name"@) == Some(JsonView::Text(name)),
        items[i].field("value"@) == Some(JsonView::Text(value)),
        forall|j: int|
            i < j < items.len() ==> (#[trigger] items[j]).field("name"@) != Some(
                JsonView::Text(name),
            ),
    ensures
        header_map(headers_of(items)).contains_key(name),
        header_map(headers_of(items))[name] == value,
    decreases items.len(),
{
    let front = headers_of(items.drop_last());
    let all = headers_of(items);
    if header_of(items.last()) is Some {
        assert(all.drop_last() =~= front);
        assert(header_map(all) == header_map(front).insert(all.last().0, all.last().1));
    }
    if i < items.len() - 1 {
        assert forall|j: int| i < j < items.drop_last().len() implies (
        #[trigger] items.drop_last()[j]).field("name"@) != Some(JsonView::Text(name)) by {
            assert(items.drop_last()[j] == items[j]);
        }
        lemma_headers_last(items.drop_last(), i, name, value);
        assert(items[items.len() - 1].field("name"@) != Some(JsonView::Text(name)));
        if header_of(items.last()) is Some {
            assert(all.last().0 != name);
        }
    }
}

/// Headers by their names: a name is there if some header has it, with the
/// value of the last that has. As an object they are read the same, each name once.
pub proof fn lemma_header_object(pairs: Seq<(Seq<char>, Seq<char>)>, i: int)
    requires
        0 <= i < pairs.len(),
        forall|j: int| i < j < pairs.len() ==> (#[trigger] pairs[j]).0 != pairs[i].0,
    ensures
        header_map(pairs).contains_key(pairs[i].0),
        header_map(pairs)[pairs[i].0] == pairs[i].1,
        header_object(pairs).field(pairs[i].0) == Some(JsonView::Text(pairs[i].1)),
{
    lemma_header_last(pairs, i);
    lemma_header_names(pairs);
    let name = pairs[i].0;
    let names = header_names(pairs);
    let k = names.index_of(name);
    assert(names.contains(name));
    let ms = header_object(pairs)->Object_0;
    assert(ms[k].0 == name);
    assert forall|j: int| 0 <= j < k implies (#[trigger] ms[j]).0 != name by {
        assert(ms[j].0 == names[j]);
    }
    json::lemma_field(ms, k, name);
}

/// No header is made up: a name that no header has is not among them.
pub proof fn lemma_no_header(pairs: Seq<(Seq<char>, Seq<char>)>, name: Seq<char>)
    requires
        forall|j: int| 0 <= j < pairs.len() ==> (#[trigger] pairs[j]).0 != name,
    ensures
        !header_map(pairs).contains_key(name),
        header_object(pairs).field(name) is None,
    decreases pairs.len(),
{
    lemma_header_names(pairs);
    if pairs.len() > 0 {
        let front = pairs.drop_last();
        assert forall|j: int| 0 <= j < front.len() implies (#[trigger] front[j]).0 != name by {
            assert(front[j] == pairs[j]);
        }
        lemma_no_header(front, name);
        assert(pairs[pairs.len() - 1].0 != name);
    }
    let ms = header_object(pairs)->Object_0;
    assert forall|j: int| 0 <= j < ms.len() implies (#[trigger] ms[j]).0 != name by {
        assert(header_names(pairs).contains(header_names(pairs)[j]));
    }
    json::lemma_no_field(ms, name);
}

proof fn lemma_header_last(pairs: Seq<(Seq<char>, Seq<char>)>, i: int)
    requires
        0 <= i < pairs.len(),
        forall|j: int| i < j < pairs.len() ==> (#[trigger] pairs[j]).0 != pairs[i].0,
    ensures
        header_map(pairs).contains_key(pairs[i].0),
        header_map(pairs)[pairs[i].0] == pairs[i].1,
    decreases pairs.len(),
{
    if i < pairs.len() - 1 {
        let front = pairs.drop_last();
        assert forall|j: int| i < j < front.len() implies (#[trigger] front[j]).0 != front[i].0 by {
            assert(front[j] == pairs[j]);
        }
        lemma_header_last(front, i);
        assert(pairs[pairs.len() - 1].0 != pairs[i].0);
    }
}

proof fn lemma_header_names(pairs: Seq<(Seq<char>, Seq<char>)>)
    ensures
        header_names(pairs).no_duplicates(),
        forall|k: Seq<char>|
            #[trigger] header_names(pairs).contains(k) <==> header_map(pairs).contains_key(k),
    decreases pairs.len(),
{
    if pairs.len() > 0 {
        let front = pairs.drop_last();
        lemma_header_names(front);
        let was = header_names(front);
        let now = header_names(pairs);
        let last = pairs.last().0;
        if !header_map(front).contains_key(last) {
            assert(!was.contains(last));
            assert forall|k: Seq<char>| #[trigger] now.contains(k) <==> header_map(pairs).contains_key(
                k,
            ) by {
                if was.contains(k) {
                    let j = was.index_of(k);
                    assert(now[j] == k);
                }
                if k == last {
                    assert(now[was.len() as int] == k);
                }
                if now.contains(k) {
                    let j = now.index_of(k);
                    if j < was.len() {
                        assert(was[j] == k);
                    }
                }
            }
            assert forall|i: int, j: int| 0 <= i < j < now.len() implies now[i] != now[j] by {
                if j == was.len() {
                    assert(was.contains(was[i]));
                }
            }
        }
    }
}

/// `Fetch.requestPaused` tells the client of the request that was paused: under
/// its id, with its URL, its method and its resource type.
pub proof fn lemma_paused_event(
    request_id: Seq<char>,
    url: Seq<char>,
    method: Seq<char>,
    headers: Seq<(Seq<char>, Seq<char>)>,
    resource_type: Seq<char>,
)
    ensures
        ({
            let p = paused_params(request_id, url, method, headers, resource_type);
            &&& p.text_field("requestId"@) == Some(request_id)
            &&& p.text_field("resourceType"@) == Some(resource_type)
            &&& p.field("request"@) matches Some(r) && r.text_field("url"@) == Some(url)
                && r.text_field("method"@) == Some(method) && r.field("headers"@) == Some(
                header_object(headers),
            )
        }),
{
    reveal_strlit("requestId");
    reveal_strlit("request");
    reveal_strlit("resourceType");
    reveal_strlit("url");
    reveal_strlit("method");
    reveal_strlit("headers");
    assert("requestId"@.len() == 9 && "request"@.len() == 7 && "resourceType"@.len() == 12);
    assert("url"@.len() == 3 && "method"@.len() == 6 && "headers"@.len() == 7);
    let p = paused_params(request_id, url, method, headers, resource_type);
    let ms = p->Object_0;
    json::lemma_field(ms, 0, "requestId"@);
    json::lemma_field(ms, 1, "request"@);
    json::lemma_field(ms, 2, "resourceType"@);
    let rs = ms[1].1->Object_0;
    json::lemma_field(rs, 0, "url"@);
    json::lemma_field(rs, 1, "method"@);
    json::lemma_field(rs, 2, "headers"@);
}

/// A client that fulfills a request is told what it answered: the status, the
/// phrase, the headers, and whether the body was in base64.
pub proof fn lemma_fulfilled_reply(p: JsonView)
    ensures
        ({
            let r = fulfill_reply(p);
            &&& r.int_field("responseCode"@) == Some(mock_of(p).status as int)
            &&& r.text_field("responsePhrase"@) == match p.field("statusText"@) {
                Some(JsonView::Text(t)) => Some(t),
                _ => Some("OK"@),
            }
            &&& r.field("responseHeaders"@) == Some(header_object(mock_headers(p)))
            &&& r.bool_field("binary"@) == Some(mock_of(p).base64_encoded)
        }),
{
    reveal_strlit("responseCode");
    reveal_strlit("responsePhrase");
    reveal_strlit("responseHeaders");
    reveal_strlit("binary");
    assert("responseCode"@.len() == 12 && "responsePhrase"@.len() == 14);
    assert("responseHeaders"@.len() == 15 && "binary"@.len() == 6);
    let ms = fulfill_reply(p)->Object_0;
    json::lemma_field(ms, 0, "responseCode"@);
    json::lemma_field(ms, 1, "responsePhrase"@);
    json::lemma_field(ms, 2, "responseHeaders"@);
    json::lemma_field(ms, 3, "binary"@);
}

/// Commands on a request need parameters: without them they fail as having
/// wrong ones, and change nothing. With them they succeed.
pub proof fn lemma_parameters_needed<P>(method: Seq<char>, p: JsonView, s: InterceptionView<P>)
    requires
        method == "continueRequest"@ || method == "failRequest"@ || method == "fulfillRequest"@
            || method == "continueResponse"@,
    ensures
        (fetch_outcome(method, None) matches Err(e) && e.code == -32602 && e.message.take(
            method.len() as int,
        ) == method),
        fetch_state(method, None, s) == s,
        fetch_outcome(method, Some(p)) is Ok,
{
    reveal_strlit("continueRequest");
    reveal_strlit("failRequest");
    reveal_strlit("fulfillRequest");
    reveal_strlit("continueResponse");
    reveal_strlit("enable");
    reveal_strlit("disable");
    reveal_strlit("restoreResponseBodyAsStream");
    assert("continueRequest"@.len() == 15);
    assert("failRequest"@.len() == 11);
    assert("fulfillRequest"@.len() == 14);
    assert("continueResponse"@.len() == 16);
    assert("enable"@.len() == 6 && "disable"@.len() == 7);
    assert("restoreResponseBodyAsStream"@.len() == 27);
    assert("continueRequest"@ != "continueResponse"@);
    assert((method + " requires parameters"@).take(method.len() as int) =~= method);
}

/// A command that the domain does not have fails as not found, by its name, and
/// changes nothing.
pub proof fn lemma_unknown_command<P>(
    method: Seq<char>,
    params: Option<JsonView>,
    s: InterceptionView<P>,
)
    requires
        method != "enable"@,
        method != "disable"@,
        method != "continueRequest"@,
        method != "failRequest"@,
        method != "fulfillRequest"@,
        method != "continueResponse"@,
    ensures
        fetch_state(method, params, s) == s,
        method != "getResponseBody"@ && method != "takeResponseBodyAsStream"@ && method
            != "restoreResponseBodyAsStream"@ ==> (fetch_outcome(method, params) matches Err(e)
            && e.code == -32601 && text::contains_text(e.message, method)),
{
    let m = "Fetch"@ + "."@ + method + " not implemented"@;
    let i = ("Fetch"@ + "."@).len() as int;
    assert(m.subrange(i, i + method.len()) =~= method);
    assert(text::occurs_at(m, method, i));
}

/// A response is continued by its id alone: without one nothing changes.
pub proof fn lemma_continue_unnamed<P>(p: JsonView, s: InterceptionView<P>)
    requires
        !(p.field("requestId"@) matches Some(JsonView::Text(_))),
    ensures
        fetch_state("continueResponse"@, Some(p), s) == s,
{
    reveal_strlit("continueResponse");
    reveal_strlit("continueRequest");
    reveal_strlit("failRequest");
    reveal_strlit("enable");
    reveal_strlit("disable");
    reveal_strlit("fulfillRequest");
    assert("continueResponse"@.len() == 16 && "continueRequest"@.len() == 15);
    assert("failRequest"@.len() == 11 && "enable"@.len() == 6 && "disable"@.len() == 7);
    assert("fulfillRequest"@.len() == 14);
}

/// Switching interception on and off needs no parameters and always succeeds;
/// it leaves the requests that wait and the responses that were given.
pub proof fn lemma_switching<P>(params: Option<JsonView>, s: InterceptionView<P>)
    ensures
        fetch_outcome("enable"@, params) == protocol::done(),
        fetch_outcome("disable"@, params) == protocol::done(),
        fetch_state("enable"@, params, s).enabled,
        !fetch_state("disable"@, params, s).enabled,
        fetch_state("enable"@, params, s).paused == s.paused,
        fetch_state("disable"@, params, s).paused == s.paused,
        fetch_state("enable"@, params, s).mocks == s.mocks,
        fetch_state("disable"@, params, s).mocks == s.mocks,
        fetch_state("disable"@, params, s).patterns.len() == 0,
{
    reveal_strlit("enable");
    reveal_strlit("disable");
    assert("enable"@.len() == 6 && "disable"@.len() == 7);
}

/// A paused request is one of the main frame, which the network was to serve; it
/// carries no data.
pub proof fn lemma_paused_kind(
    request_id: Seq<char>,
    url: Seq<char>,
    method: Seq<char>,
    headers: Seq<(Seq<char>, Seq<char>)>,
    resource_type: Seq<char>,
)
    ensures
        ({
            let p = paused_params(request_id, url, method, headers, resource_type);
            &&& p.text_field("frameId"@) == Some("main"@)
            &&& p.bool_field("networkIntercepted"@) == Some(true)
            &&& (p.field("request"@) matches Some(r) && r.text_field("initialPriority"@) == Some(
                "VeryHigh"@,
            ) && r.text_field("urlFragment"@) == Some(""@) && r.field("postData"@) == Some(
                JsonView::Null,
            ))
        }),
{
    reveal_strlit("requestId");
    reveal_strlit("request");
    reveal_strlit("resourceType");
    reveal_strlit("frameId");
    reveal_strlit("networkIntercepted");
    reveal_strlit("url");
    reveal_strlit("method");
    reveal_strlit("headers");
    reveal_strlit("initialPriority");
    reveal_strlit("urlFragment");
    reveal_strlit("postData");
    assert("requestId"@.len() == 9 && "request"@.len() == 7);
    assert("resourceType"@.len() == 12 && "frameId"@.len() == 7);
    assert("networkIntercepted"@.len() == 18 && "url"@.len() == 3);
    assert("method"@.len() == 6 && "headers"@.len() == 7);
    assert("initialPriority"@.len() == 15 && "urlFragment"@.len() == 11);
    assert("postData"@.len() == 8 && "request"@[0] == 'r');
    assert("frameId"@[0] == 'f' && "headers"@[0] == 'h');
    let ms = paused_params(request_id, url, method, headers, resource_type)->Object_0;
    json::lemma_field(ms, 1, "request"@);
    json::lemma_field(ms, 3, "frameId"@);
    json::lemma_field(ms, 4, "networkIntercepted"@);
    let rs = ms[1].1->Object_0;
    json::lemma_field(rs, 3, "initialPriority"@);
    json::lemma_field(rs, 4, "urlFragment"@);
    json::lemma_field(rs, 5, "postData"@);
}

/// The status of a made-up response is the given one, as far as sixteen bits hold
/// it: numbers that differ by 65536 give the same.
pub proof fn lemma_low_16(n: int)
    ensures
        0 <= n < 65536 ==> low_16(n) == n,
        low_16(n + 65536) == low_16(n),
{
}

} // verus!
