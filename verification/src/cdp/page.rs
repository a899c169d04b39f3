//! The Page domain: navigation, frames, screenshots.
//!
//! A navigation tells the client of its progress by events: that the request
//! will be sent, before it is; then, once the page is there, that the frame
//! was navigated, that the response was received and loaded, that the document
//! was read, and that the page was loaded.
use vstd::prelude::*;
use vstd::string::*;

use crate::cdp::fetch;
use crate::cdp::protocol;
use crate::cdp::protocol::{CdpError, CdpEvent, CdpEventView, DomainResult};
use crate::codec;
use crate::js::double;
use crate::js::weburl;
use crate::json;
use crate::json::{Json, JsonView, Number, ObjectBuilder};
use crate::text;

verus! {

/// A command of the Page domain.
#[derive(Debug, Clone, Copy, PartialEq, Eq, Structural)]
pub enum PageMethod {
    Enable,
    Disable,
    Navigate,
    Reload,
    GetFrameTree,
    GetFrameMetrics,
    CaptureScreenshot,
    PrintToPdf,
    GetLifecycleEvents,
    SetLifecycleEventsEnabled,
}

/// The command that a method's name stands for.
pub open spec fn method_named(name: Seq<char>) -> Option<PageMethod> {
    if name == "enable"@ {
        Some(PageMethod::Enable)
    } else if name == "disable"@ {
        Some(PageMethod::Disable)
    } else if name == "navigate"@ {
        Some(PageMethod::Navigate)
    } else if name == "reload"@ {
        Some(PageMethod::Reload)
    } else if name == "getFrameTree"@ {
        Some(PageMethod::GetFrameTree)
    } else if name == "getFrameMetrics"@ {
        Some(PageMethod::GetFrameMetrics)
    } else if name == "captureScreenshot"@ {
        Some(PageMethod::CaptureScreenshot)
    } else if name == "printToPDF"@ {
        Some(PageMethod::PrintToPdf)
    } else if name == "getLifecycleEvents"@ {
        Some(PageMethod::GetLifecycleEvents)
    } else if name == "setLifecycleEventsEnabled"@ {
        Some(PageMethod::SetLifecycleEventsEnabled)
    } else {
        None
    }
}

/// The command that a method's name stands for, or the error that there is none.
pub fn route(method: &str) -> (r: Result<PageMethod, CdpError>)
    ensures
        match r {
            Ok(m) => method_named(method@) == Some(m),
            Err(e) => method_named(method@) is None && e@ == protocol::unknown_method(
                "Page"@,
                method@,
            ),
        },
{
    if text::same(method, "enable") {
        Ok(PageMethod::Enable)
    } else if text::same(method, "disable") {
        Ok(PageMethod::Disable)
    } else if text::same(method, "navigate") {
        Ok(PageMethod::Navigate)
    } else if text::same(method, "reload") {
        Ok(PageMethod::Reload)
    } else if text::same(method, "getFrameTree") {
        Ok(PageMethod::GetFrameTree)
    } else if text::same(method, "getFrameMetrics") {
        Ok(PageMethod::GetFrameMetrics)
    } else if text::same(method, "captureScreenshot") {
        Ok(PageMethod::CaptureScreenshot)
    } else if text::same(method, "printToPDF") {
        Ok(PageMethod::PrintToPdf)
    } else if text::same(method, "getLifecycleEvents") {
        Ok(PageMethod::GetLifecycleEvents)
    } else if text::same(method, "setLifecycleEventsEnabled") {
        Ok(PageMethod::SetLifecycleEventsEnabled)
    } else {
        Err(protocol::not_implemented("Page", method))
    }
}

/// `Page.enable`: events of the domain are sent from now on.
pub fn enable(page_enabled: &mut bool) -> (r: DomainResult)
    ensures
        *final(page_enabled),
        protocol::outcome(r) == protocol::done(),
{
    *page_enabled = true;
    protocol::succeed()
}

/// `Page.disable`: events of the domain are no longer sent.
pub fn disable(page_enabled: &mut bool) -> (r: DomainResult)
    ensures
        !*final(page_enabled),
        protocol::outcome(r) == protocol::done(),
{
    *page_enabled = false;
    protocol::succeed()
}

/// What `Page.setLifecycleEventsEnabled` asks for: off, unless `enabled` says otherwise.
pub open spec fn lifecycle_wanted(params: Option<JsonView>) -> bool {
    match params {
        Some(p) => match p.bool_field("enabled"@) {
            Some(b) => b,
            None => false,
        },
        None => false,
    }
}

/// `Page.setLifecycleEventsEnabled`: switches the domain's events on or off.
pub fn set_lifecycle_events_enabled(params: Option<&Json>, page_enabled: &mut bool) -> (r:
    DomainResult)
    ensures
        *final(page_enabled) == lifecycle_wanted(fetch::params_view(params)),
        protocol::outcome(r) == protocol::done(),
{
    *page_enabled = match params {
        Some(p) => match p.get_bool("enabled") {
            Some(b) => b,
            None => false,
        },
        None => false,
    };
    protocol::succeed()
}

/// `Page.getLifecycleEvents`: there are none.
pub fn get_lifecycle_events() -> (r: DomainResult)
    ensures
        protocol::outcome(r) == protocol::gives(
            JsonView::Object(seq![("events"@, JsonView::Array(Seq::empty()))]),
        ),
{
    let none: Vec<Json> = Vec::new();
    assert(json::item_views(none@) =~= Seq::empty());
    let reply: Json = ObjectBuilder::new().with("events", Json::array(none)).build();
    assert(reply@->Object_0 =~= seq![("events"@, JsonView::Array(Seq::empty()))]);
    Ok(Some(reply))
}

/// What `Network.requestWillBeSent` says. The two times are numbers that the clock gave.
pub open spec fn will_be_sent(
    request_id: Seq<char>,
    loader_id: Seq<char>,
    url: Seq<char>,
    timestamp: Number,
    wall_time: Number,
) -> JsonView {
    JsonView::Object(
        seq![
            ("requestId"@, JsonView::Text(request_id)),
            ("loaderId"@, JsonView::Text(loader_id)),
            ("documentURL"@, JsonView::Text(url)),
            (
                "request"@,
                JsonView::Object(
                    seq![
                        ("url"@, JsonView::Text(url)),
                        ("method"@, JsonView::Text("GET"@)),
                        ("headers"@, JsonView::Object(Seq::empty())),
                        ("initialPriority"@, JsonView::Text("VeryHigh"@)),
                        ("urlFragment"@, JsonView::Text(""@)),
                    ],
                ),
            ),
            ("timestamp"@, JsonView::Number(timestamp)),
            ("wallTime"@, JsonView::Number(wall_time)),
            ("initiator"@, JsonView::Object(seq![("type"@, JsonView::Text("other"@))])),
            ("type"@, JsonView::Text("Document"@)),
            ("frameId"@, JsonView::Text("main"@)),
            ("hasUserGesture"@, JsonView::Bool(false)),
        ],
    )
}

fn request_event(
    request_id: &str,
    loader_id: &str,
    url: &str,
    timestamp: Number,
    wall_time: Number,
) -> (r: CdpEvent)
    ensures
        r@ == (CdpEventView {
            method: "Network.requestWillBeSent"@,
            params: will_be_sent(request_id@, loader_id@, url@, timestamp, wall_time),
        }),
{
    let request: Json = ObjectBuilder::new().with_text("url", url).with_text("method", "GET").with(
        "headers",
        Json::empty_object(),
    ).with_text("initialPriority", "VeryHigh").with_text("urlFragment", "").build();
    let initiator: Json = ObjectBuilder::new().with_text("type", "other").build();
    let params: Json = ObjectBuilder::new().with_text("requestId", request_id).with_text(
        "loaderId",
        loader_id,
    ).with_text("documentURL", url).with("request", request).with(
        "timestamp",
        Json::Number(timestamp),
    ).with("wallTime", Json::Number(wall_time)).with("initiator", initiator).with_text(
        "type",
        "Document",
    ).with_text("frameId", "main").with("hasUserGesture", Json::Bool(false)).build();
    proof {
        let want = will_be_sent(request_id@, loader_id@, url@, timestamp, wall_time);
        assert(request@->Object_0 =~= want->Object_0[3].1->Object_0);
        assert(initiator@->Object_0 =~= want->Object_0[6].1->Object_0);
        assert(params@->Object_0 =~= want->Object_0);
    }
    CdpEvent { method: "Network.requestWillBeSent".to_owned(), params }
}

/// What `Page.frameNavigated` says of the frame after a navigation.
pub open spec fn frame_navigated(
    frame_id: Seq<char>,
    loader_id: Seq<char>,
    url: Seq<char>,
) -> JsonView {
    JsonView::Object(
        seq![
            (
                "frame"@,
                JsonView::Object(
                    seq![
                        ("id"@, JsonView::Text(frame_id)),
                        ("loaderId"@, JsonView::Text(loader_id)),
                        ("url"@, JsonView::Text(url)),
                        ("domainAndRegistry"@, JsonView::Text(""@)),
                        ("securityOrigin"@, JsonView::Text(url)),
                        ("mimeType"@, JsonView::Text("text/html"@)),
                        (
                            "adFrameStatus"@,
                            JsonView::Object(seq![("adFrameType"@, JsonView::Text("none"@))]),
                        ),
                        ("secureContextType"@, JsonView::Text("Secure"@)),
                        ("crossOriginIsolatedContextType"@, JsonView::Text("NotIsolated"@)),
                    ],
                ),
            ),
            ("type"@, JsonView::Text("Navigation"@)),
        ],
    )
}

/// What `Page.frameNavigated` says of the frame after a reload.
pub open spec fn frame_reloaded(
    frame_id: Seq<char>,
    loader_id: Seq<char>,
    url: Seq<char>,
) -> JsonView {
    JsonView::Object(
        seq![
            (
                "frame"@,
                JsonView::Object(
                    seq![
                        ("id"@, JsonView::Text(frame_id)),
                        ("loaderId"@, JsonView::Text(loader_id)),
                        ("url"@, JsonView::Text(url)),
                        ("mimeType"@, JsonView::Text("text/html"@)),
                    ],
                ),
            ),
            ("type"@, JsonView::Text("Navigation"@)),
        ],
    )
}

fn navigated_params(frame_id: &str, loader_id: &str, url: &str) -> (r: Json)
    ensures
        r@ == frame_navigated(frame_id@, loader_id@, url@),
{
    let ad: Json = ObjectBuilder::new().with_text("adFrameType", "none").build();
    let frame: Json = ObjectBuilder::new().with_text("id", frame_id).with_text(
        "loaderId",
        loader_id,
    ).with_text("url", url).with_text("domainAndRegistry", "").with_text(
        "securityOrigin",
        url,
    ).with_text("mimeType", "text/html").with("adFrameStatus", ad).with_text(
        "secureContextType",
        "Secure",
    ).with_text("crossOriginIsolatedContextType", "NotIsolated").build();
    let r: Json = ObjectBuilder::new().with("frame", frame).with_text("type", "Navigation").build();
    proof {
        let want = frame_navigated(frame_id@, loader_id@, url@);
        assert(ad@->Object_0 =~= want->Object_0[0].1->Object_0[6].1->Object_0);
        assert(frame@->Object_0 =~= want->Object_0[0].1->Object_0);
        assert(r@->Object_0 =~= want->Object_0);
    }
    r
}

fn reloaded_params(frame_id: &str, loader_id: &str, url: &str) -> (r: Json)
    ensures
        r@ == frame_reloaded(frame_id@, loader_id@, url@),
{
    let frame: Json = ObjectBuilder::new().with_text("id", frame_id).with_text(
        "loaderId",
        loader_id,
    ).with_text("url", url).with_text("mimeType", "text/html").build();
    let r: Json = ObjectBuilder::new().with("frame", frame).with_text("type", "Navigation").build();
    proof {
        let want = frame_reloaded(frame_id@, loader_id@, url@);
        assert(frame@->Object_0 =~= want->Object_0[0].1->Object_0);
        assert(r@->Object_0 =~= want->Object_0);
    }
    r
}

/// A thing to send to the client.
pub enum Emission {
    /// An event.
    Event(CdpEvent),
    /// The two events of the Network domain that say that a response was
    /// received and that it was loaded.
    ResponseEvents {
        request_id: String,
        url: String,
        loader_id: String,
        status: u16,
        mime_type: &'static str,
    },
}

/// What a thing to send says.
pub enum EmissionView {
    Event(CdpEventView),
    ResponseEvents {
        request_id: Seq<char>,
        url: Seq<char>,
        loader_id: Seq<char>,
        status: u16,
        mime_type: Seq<char>,
    },
}

impl View for Emission {
    type V = EmissionView;

    open spec fn view(&self) -> EmissionView {
        match self {
            Emission::Event(e) => EmissionView::Event(e@),
            Emission::ResponseEvents {
                request_id,
                url,
                loader_id,
                status,
                mime_type,
            } => EmissionView::ResponseEvents {
                request_id: request_id@,
                url: url@,
                loader_id: loader_id@,
                status: *status,
                mime_type: mime_type@,
            },
        }
    }
}

/// What several things to send say.
pub open spec fn emission_views(v: Seq<Emission>) -> Seq<EmissionView> {
    v.map_values(|e: Emission| e@)
}

/// The names of the events that a thing to send sends.
pub open spec fn event_names(e: EmissionView) -> Seq<Seq<char>> {
    match e {
        EmissionView::Event(v) => seq![v.method],
        EmissionView::ResponseEvents { .. } => seq![
            "Network.responseReceived"@,
            "Network.loadingFinished"@,
        ],
    }
}

/// The names of the events that several things send, in order.
pub open spec fn all_event_names(v: Seq<EmissionView>) -> Seq<Seq<char>>
    decreases v.len(),
{
    if v.len() == 0 {
        Seq::empty()
    } else {
        event_names(v[0]) + all_event_names(v.drop_first())
    }
}

/// A navigation that has begun.
pub struct Begun {
    pub loader_id: String,
    pub request_id: String,
    /// The URL to go to.
    pub url: String,
    /// What is sent before the navigation.
    pub event: CdpEvent,
}

/// A navigation has begun with these ids.
pub open spec fn begun_with(
    b: Begun,
    url: Seq<char>,
    loader: Seq<char>,
    request: Seq<char>,
    timestamp: Number,
    wall_time: Number,
) -> bool {
    &&& b.url@ == url
    &&& b.loader_id@ == "LID-"@ + loader
    &&& b.request_id@ == "REQ-"@ + request
    &&& b.event@ == (CdpEventView {
        method: "Network.requestWillBeSent"@,
        params: will_be_sent("REQ-"@ + request, "LID-"@ + loader, url, timestamp, wall_time),
    })
}

/// The URL that `Page.navigate` goes to: its parameter `url`, or a blank page.
pub open spec fn navigation_url(params: Option<JsonView>) -> Seq<char> {
    match params {
        Some(p) => fetch::text_or(p, "url"@, "about:blank"@),
        None => "about:blank"@,
    }
}

/// A hexadecimal digit with its letters in lower case.
pub open spec fn lower_hex(c: char) -> bool {
    '0' <= c <= '9' || 'a' <= c <= 'f'
}

/// Thirty-two hexadecimal digits.
pub open spec fn simple_uuid(s: Seq<char>) -> bool {
    s.len() == 32 && forall|i: int| 0 <= i < s.len() ==> lower_hex(#[trigger] s[i])
}

/// `Uuid::new_v4` of the `uuid` crate, printed by `as_simple`: thirty-two
/// hexadecimal digits in lower case. Which ones is left to chance.
#[verifier::external_body]
fn random_id() -> (r: String)
    ensures
        simple_uuid(r@),
{
    uuid::Uuid::new_v4().as_simple().to_string()
}

/// Begins a navigation to a URL under ids that are given.
pub fn begin_as(
    url: &str,
    loader: &str,
    request: &str,
    timestamp: Number,
    wall_time: Number,
) -> (r: Begun)
    ensures
        begun_with(r, url@, loader@, request@, timestamp, wall_time),
{
    let loader_id: String = text::concat("LID-", loader);
    let request_id: String = text::concat("REQ-", request);
    let event: CdpEvent = request_event(
        request_id.as_str(),
        loader_id.as_str(),
        url,
        timestamp,
        wall_time,
    );
    Begun { loader_id, request_id, url: url.to_owned(), event }
}

/// Begins `Page.navigate`, under ids of its own.
pub fn navigate(params: Option<&Json>, timestamp: Number, wall_time: Number) -> (r: Begun)
    ensures
        exists|loader: Seq<char>, request: Seq<char>|
            simple_uuid(loader) && simple_uuid(request) && #[trigger] begun_with(
                r,
                navigation_url(fetch::params_view(params)),
                loader,
                request,
                timestamp,
                wall_time,
            ),
{
    let url: String = match params {
        Some(p) => match p.get_text("url") {
            Some(t) => t.clone(),
            None => "about:blank".to_owned(),
        },
        None => "about:blank".to_owned(),
    };
    let loader: String = random_id();
    let request: String = random_id();
    let r: Begun = begin_as(
        url.as_str(),
        loader.as_str(),
        request.as_str(),
        timestamp,
        wall_time,
    );
    assert(begun_with(
        r,
        navigation_url(fetch::params_view(params)),
        loader@,
        request@,
        timestamp,
        wall_time,
    ));
    r
}

/// The URL of the page that is there, or that of a blank one.
pub open spec fn url_or_blank(current: Option<Seq<char>>) -> Seq<char> {
    match current {
        Some(u) => u,
        None => "about:blank"@,
    }
}

/// Begins `Page.reload` of the page that is there, under ids of its own.
pub fn reload(current_url: Option<String>, timestamp: Number, wall_time: Number) -> (r: Begun)
    ensures
        exists|loader: Seq<char>, request: Seq<char>|
            simple_uuid(loader) && simple_uuid(request) && #[trigger] begun_with(
                r,
                url_or_blank(codec::text_view(current_url)),
                loader,
                request,
                timestamp,
                wall_time,
            ),
{
    let url: String = match current_url {
        Some(u) => u,
        None => "about:blank".to_owned(),
    };
    let loader: String = random_id();
    let request: String = random_id();
    let r: Begun = begin_as(
        url.as_str(),
        loader.as_str(),
        request.as_str(),
        timestamp,
        wall_time,
    );
    assert(begun_with(
        r,
        url_or_blank(codec::text_view(current_url)),
        loader@,
        request@,
        timestamp,
        wall_time,
    ));
    r
}

/// What the session says once a navigation is over.
pub struct Landed {
    /// The id of the page's root frame, if there is a page.
    pub frame_id: Option<String>,
    /// The URL that the session is at, if there is one.
    pub current_url: Option<String>,
    /// When it was over, as the clock gave it.
    pub timestamp: Number,
}

/// The id of the frame that was navigated.
pub open spec fn landed_frame(l: Landed) -> Seq<char> {
    match l.frame_id {
        Some(f) => f@,
        None => "main"@,
    }
}

/// An event with a time.
pub open spec fn timed_event(name: Seq<char>, timestamp: Number) -> EmissionView {
    EmissionView::Event(
        CdpEventView {
            method: name,
            params: JsonView::Object(seq![("timestamp"@, JsonView::Number(timestamp))]),
        },
    )
}

/// What is sent once a navigation has succeeded, in order.
pub open spec fn sent_after(
    frame: JsonView,
    request_id: Seq<char>,
    loader_id: Seq<char>,
    url: Seq<char>,
    timestamp: Number,
) -> Seq<EmissionView> {
    seq![
        EmissionView::Event(CdpEventView { method: "Page.frameNavigated"@, params: frame }),
        EmissionView::ResponseEvents {
            request_id,
            url,
            loader_id,
            status: 200,
            mime_type: "text/html"@,
        },
        timed_event("Page.domContentLoadedEventFired"@, timestamp),
        timed_event("Page.loadEventFired"@, timestamp),
    ]
}

fn time_event(name: &str, timestamp: Number) -> (r: Emission)
    ensures
        r@ == timed_event(name@, timestamp),
{
    let params: Json = ObjectBuilder::new().with("timestamp", Json::Number(timestamp)).build();
    assert(params@->Object_0 =~= seq![("timestamp"@, JsonView::Number(timestamp))]);
    Emission::Event(CdpEvent { method: name.to_owned(), params })
}

fn emissions(frame: Json, begun: &Begun, url: &str, timestamp: Number) -> (r: Vec<Emission>)
    ensures
        emission_views(r@) == sent_after(
            frame@,
            begun.request_id@,
            begun.loader_id@,
            url@,
            timestamp,
        ),
{
    let ghost want = sent_after(frame@, begun.request_id@, begun.loader_id@, url@, timestamp);
    let mut r: Vec<Emission> = Vec::new();
    r.push(Emission::Event(CdpEvent { method: "Page.frameNavigated".to_owned(), params: frame }));
    r.push(
        Emission::ResponseEvents {
            request_id: begun.request_id.clone(),
            url: url.to_owned(),
            loader_id: begun.loader_id.clone(),
            status: 200,
            mime_type: "text/html",
        },
    );
    r.push(time_event("Page.domContentLoadedEventFired", timestamp));
    r.push(time_event("Page.loadEventFired", timestamp));
    assert(emission_views(r@) =~= want);
    r
}

/// The answer to a navigation that succeeded.
pub open spec fn navigate_reply(frame_id: Seq<char>, loader_id: Seq<char>) -> JsonView {
    JsonView::Object(
        seq![
            ("frameId"@, JsonView::Text(frame_id)),
            ("loaderId"@, JsonView::Text(loader_id)),
            ("errorText"@, JsonView::Null),
        ],
    )
}

/// The answer to a reload that succeeded.
pub open spec fn reload_reply(frame_id: Seq<char>, loader_id: Seq<char>) -> JsonView {
    JsonView::Object(
        seq![
            ("frameId"@, JsonView::Text(frame_id)),
            ("loaderId"@, JsonView::Text(loader_id)),
        ],
    )
}

/// The URL that a navigation led to: the one that the session is at, or where it
/// says none the one that was asked for.
pub open spec fn landed_url(current: Option<Seq<char>>, asked: Seq<char>) -> Seq<char> {
    match current {
        Some(u) => u,
        None => asked,
    }
}

/// What is sent when a navigation has led somewhere.
pub open spec fn navigate_sent(b: Begun, l: Landed) -> Seq<EmissionView> {
    let url = landed_url(codec::text_view(l.current_url), b.url@);
    sent_after(
        frame_navigated(landed_frame(l), b.loader_id@, url),
        b.request_id@,
        b.loader_id@,
        url,
        l.timestamp,
    )
}

/// What is sent when a reload is over.
pub open spec fn reload_sent(b: Begun, l: Landed) -> Seq<EmissionView> {
    let url = url_or_blank(codec::text_view(l.current_url));
    sent_after(
        frame_reloaded(landed_frame(l), b.loader_id@, url),
        b.request_id@,
        b.loader_id@,
        url,
        l.timestamp,
    )
}

/// Ends `Page.navigate`: what to send, and what to answer. Where the session
/// says nothing of the URL that it is at, it is the one that was asked for.
pub fn navigate_end(begun: &Begun, ended: Result<Landed, String>) -> (r: (
    Vec<Emission>,
    DomainResult,
))
    ensures
        ended matches Ok(l) ==> emission_views(r.0@) == navigate_sent(*begun, l),
        match ended {
            Ok(l) => {
                let url = landed_url(codec::text_view(l.current_url), begun.url@);
                let frame = frame_navigated(landed_frame(l), begun.loader_id@, url);
                &&& emission_views(r.0@) == sent_after(
                    frame,
                    begun.request_id@,
                    begun.loader_id@,
                    url,
                    l.timestamp,
                )
                &&& protocol::outcome(r.1) == protocol::gives(
                    navigate_reply(landed_frame(l), begun.loader_id@),
                )
            },
            Err(why) => {
                &&& r.0@.len() == 0
                &&& protocol::outcome(r.1) == protocol::fails(
                    protocol::SERVER_ERROR,
                    "Navigation failed: "@ + why@,
                )
            },
        },
{
    match ended {
        Ok(l) => {
            let frame_id: String = match &l.frame_id {
                Some(f) => f.clone(),
                None => "main".to_owned(),
            };
            let url: String = match &l.current_url {
                Some(u) => u.clone(),
                None => begun.url.clone(),
            };
            let frame: Json = navigated_params(
                frame_id.as_str(),
                begun.loader_id.as_str(),
                url.as_str(),
            );
            let sent: Vec<Emission> = emissions(frame, begun, url.as_str(), l.timestamp);
            let reply: Json = ObjectBuilder::new().with_text("frameId", frame_id.as_str()).with_text(
                "loaderId",
                begun.loader_id.as_str(),
            ).with("errorText", Json::Null).build();
            assert(reply@->Object_0 =~= navigate_reply(frame_id@, begun.loader_id@)->Object_0);
            (sent, Ok(Some(reply)))
        },
        Err(why) => (
            Vec::new(),
            Err(
                protocol::error(
                    protocol::SERVER_ERROR,
                    text::concat("Navigation failed: ", why.as_str()).as_str(),
                ),
            ),
        ),
    }
}

/// Ends `Page.reload`: what to send, and what to answer.
pub fn reload_end(begun: &Begun, ended: Result<Landed, String>) -> (r: (
    Vec<Emission>,
    DomainResult,
))
    ensures
        ended matches Ok(l) ==> emission_views(r.0@) == reload_sent(*begun, l),
        match ended {
            Ok(l) => {
                let url = url_or_blank(codec::text_view(l.current_url));
                let frame = frame_reloaded(landed_frame(l), begun.loader_id@, url);
                &&& emission_views(r.0@) == sent_after(
                    frame,
                    begun.request_id@,
                    begun.loader_id@,
                    url,
                    l.timestamp,
                )
                &&& protocol::outcome(r.1) == protocol::gives(
                    reload_reply(landed_frame(l), begun.loader_id@),
                )
            },
            Err(why) => {
                &&& r.0@.len() == 0
                &&& protocol::outcome(r.1) == protocol::fails(
                    protocol::SERVER_ERROR,
                    "Reload failed: "@ + why@,
                )
            },
        },
{
    match ended {
        Ok(l) => {
            let frame_id: String = match &l.frame_id {
                Some(f) => f.clone(),
                None => "main".to_owned(),
            };
            let url: String = match &l.current_url {
                Some(u) => u.clone(),
                None => "about:blank".to_owned(),
            };
            let frame: Json = reloaded_params(
                frame_id.as_str(),
                begun.loader_id.as_str(),
                url.as_str(),
            );
            let sent: Vec<Emission> = emissions(frame, begun, url.as_str(), l.timestamp);
            let reply: Json = ObjectBuilder::new().with_text("frameId", frame_id.as_str()).with_text(
                "loaderId",
                begun.loader_id.as_str(),
            ).build();
            assert(reply@->Object_0 =~= reload_reply(frame_id@, begun.loader_id@)->Object_0);
            (sent, Ok(Some(reply)))
        },
        Err(why) => (
            Vec::new(),
            Err(
                protocol::error(
                    protocol::SERVER_ERROR,
                    text::concat("Reload failed: ", why.as_str()).as_str(),
                ),
            ),
        ),
    }
}

/// The events of a navigation that succeeded come in this order: the request
/// will be sent, the frame was navigated, the response was received, it was
/// loaded, the document was read, the page was loaded.
pub proof fn lemma_event_order(
    first: CdpEventView,
    frame: JsonView,
    request_id: Seq<char>,
    loader_id: Seq<char>,
    url: Seq<char>,
    timestamp: Number,
)
    requires
        first.method == "Network.requestWillBeSent"@,
    ensures
        seq![first.method] + all_event_names(
            sent_after(frame, request_id, loader_id, url, timestamp),
        ) == seq![
            "Network.requestWillBeSent"@,
            "Page.frameNavigated"@,
            "Network.responseReceived"@,
            "Network.loadingFinished"@,
            "Page.domContentLoadedEventFired"@,
            "Page.loadEventFired"@,
        ],
{
    let v = sent_after(frame, request_id, loader_id, url, timestamp);
    let v1 = v.drop_first();
    let v2 = v1.drop_first();
    let v3 = v2.drop_first();
    assert(v1[0] == v[1] && v2[0] == v[2] && v3[0] == v[3]);
    assert(v3.drop_first() =~= Seq::empty());
    assert(all_event_names(v3.drop_first()) =~= Seq::empty());
    assert(all_event_names(v3) =~= seq!["Page.loadEventFired"@]);
    assert(all_event_names(v2) =~= seq![
        "Page.domContentLoadedEventFired"@,
        "Page.loadEventFired"@,
    ]);
    assert(all_event_names(v1) =~= seq![
        "Network.responseReceived"@,
        "Network.loadingFinished"@,
        "Page.domContentLoadedEventFired"@,
        "Page.loadEventFired"@,
    ]);
    assert(all_event_names(v) =~= seq![
        "Page.frameNavigated"@,
        "Network.responseReceived"@,
        "Network.loadingFinished"@,
        "Page.domContentLoadedEventFired"@,
        "Page.loadEventFired"@,
    ]);
}

/// The root frame of a page.
pub struct FrameInfo {
    pub id: String,
    pub url: String,
    /// The origin of the URL.
    pub origin: String,
}

/// The root frame of a page: its origin is that of its URL with the host in
/// Unicode, as the URL's parts say it.
pub fn root_frame(id: &str, url: &str) -> (r: FrameInfo)
    ensures
        r.id@ == id@,
        r.url@ == url@,
        r.origin@ == match weburl::parsed_url(url@) {
            Some(u) => u.unicode_origin,
            None => Seq::empty(),
        },
{
    let origin: String = match weburl::parse_url(url) {
        Some(u) => u.unicode_origin,
        None => String::new(),
    };
    FrameInfo { id: id.to_owned(), url: url.to_owned(), origin }
}

/// The answer to `Page.getFrameTree`.
pub open spec fn frame_tree(id: Seq<char>, url: Seq<char>, origin: Seq<char>) -> JsonView {
    JsonView::Object(
        seq![
            (
                "frameTree"@,
                JsonView::Object(
                    seq![
                        (
                            "frame"@,
                            JsonView::Object(
                                seq![
                                    ("id"@, JsonView::Text(id)),
                                    ("url"@, JsonView::Text(url)),
                                    ("securityOrigin"@, JsonView::Text(origin)),
                                    ("mimeType"@, JsonView::Text("text/html"@)),
                                ],
                            ),
                        ),
                        ("childFrames"@, JsonView::Array(Seq::empty())),
                    ],
                ),
            ),
        ],
    )
}

/// `Page.getFrameTree`: the root frame of the page, or of a blank one where
/// there is no page.
pub fn get_frame_tree(page: Option<FrameInfo>) -> (r: DomainResult)
    ensures
        protocol::outcome(r) == protocol::gives(
            match page {
                Some(f) => frame_tree(f.id@, f.url@, f.origin@),
                None => frame_tree("main"@, "about:blank"@, ""@),
            },
        ),
{
    let f: FrameInfo = match page {
        Some(f) => f,
        None => FrameInfo {
            id: "main".to_owned(),
            url: "about:blank".to_owned(),
            origin: "".to_owned(),
        },
    };
    let frame: Json = ObjectBuilder::new().with_text("id", f.id.as_str()).with_text(
        "url",
        f.url.as_str(),
    ).with_text("securityOrigin", f.origin.as_str()).with_text("mimeType", "text/html").build();
    let none: Vec<Json> = Vec::new();
    assert(json::item_views(none@) =~= Seq::empty());
    let tree: Json = ObjectBuilder::new().with("frame", frame).with(
        "childFrames",
        Json::array(none),
    ).build();
    let reply: Json = ObjectBuilder::new().with("frameTree", tree).build();
    proof {
        let want = frame_tree(f.id@, f.url@, f.origin@);
        assert(frame@->Object_0 =~= want->Object_0[0].1->Object_0[0].1->Object_0);
        assert(tree@->Object_0 =~= want->Object_0[0].1->Object_0);
        assert(reply@->Object_0 =~= want->Object_0);
    }
    Ok(Some(reply))
}

/// A number in JSON.
pub open spec fn count(n: u64) -> JsonView {
    JsonView::Number(Number::PosInt(n))
}

/// The answer to `Page.getFrameMetrics`.
pub open spec fn frame_metrics() -> JsonView {
    JsonView::Object(
        seq![
            (
                "layoutViewport"@,
                JsonView::Object(
                    seq![
                        ("pageX"@, count(0)),
                        ("pageY"@, count(0)),
                        ("clientWidth"@, count(1280)),
                        ("clientHeight"@, count(720)),
                    ],
                ),
            ),
            (
                "visualViewport"@,
                JsonView::Object(
                    seq![
                        ("offsetX"@, count(0)),
                        ("offsetY"@, count(0)),
                        ("pageX"@, count(0)),
                        ("pageY"@, count(0)),
                        ("clientWidth"@, count(1280)),
                        ("clientHeight"@, count(720)),
                        ("scale"@, count(1)),
                        ("zoom"@, count(1)),
                    ],
                ),
            ),
            (
                "contentSize"@,
                JsonView::Object(seq![("width"@, count(1280)), ("height"@, count(720))]),
            ),
        ],
    )
}

/// `Page.getFrameMetrics`: the sizes of the frame's viewports and content.
pub fn get_frame_metrics() -> (r: DomainResult)
    ensures
        protocol::outcome(r) == protocol::gives(frame_metrics()),
{
    let layout: Json = ObjectBuilder::new().with("pageX", Json::whole(0)).with(
        "pageY",
        Json::whole(0),
    ).with("clientWidth", Json::whole(1280)).with("clientHeight", Json::whole(720)).build();
    let visual: Json = ObjectBuilder::new().with("offsetX", Json::whole(0)).with(
        "offsetY",
        Json::whole(0),
    ).with("pageX", Json::whole(0)).with("pageY", Json::whole(0)).with(
        "clientWidth",
        Json::whole(1280),
    ).with("clientHeight", Json::whole(720)).with("scale", Json::whole(1)).with(
        "zoom",
        Json::whole(1),
    ).build();
    let content: Json = ObjectBuilder::new().with("width", Json::whole(1280)).with(
        "height",
        Json::whole(720),
    ).build();
    let reply: Json = ObjectBuilder::new().with("layoutViewport", layout).with(
        "visualViewport",
        visual,
    ).with("contentSize", content).build();
    proof {
        let want = frame_metrics()->Object_0;
        assert(layout@->Object_0 =~= want[0].1->Object_0);
        assert(visual@->Object_0 =~= want[1].1->Object_0);
        assert(content@->Object_0 =~= want[2].1->Object_0);
        assert(reply@->Object_0 =~= want);
    }
    Ok(Some(reply))
}

/// The width that `Page.captureScreenshot` asks for: the integer part of
/// `clip.width`, kept to what 32 bits hold, or 1280.
pub open spec fn clip_width(params: Option<JsonView>) -> u32 {
    match params {
        Some(p) => match p.field("clip"@) {
            Some(clip) => match clip.field("width"@) {
                Some(JsonView::Number(n)) => match n {
                    Number::PosInt(m) => double::clamped(m as int, 0, u32::MAX as int) as u32,
                    Number::NegInt(_) => 0,
                    Number::Float(bits) => double::clamped(
                        double::truncated(bits),
                        0,
                        u32::MAX as int,
                    ) as u32,
                },
                _ => 1280,
            },
            None => 1280,
        },
        None => 1280,
    }
}

/// The width that `Page.captureScreenshot` asks for.
pub fn viewport_width(params: Option<&Json>) -> (r: u32)
    ensures
        r == clip_width(fetch::params_view(params)),
{
    match params {
        Some(p) => match p.get("clip") {
            Some(clip) => match clip.get("width") {
                Some(Json::Number(n)) => match *n {
                    Number::PosInt(m) => if m > 0xffff_ffff {
                        0xffff_ffff
                    } else {
                        m as u32
                    },
                    Number::NegInt(_) => 0,
                    Number::Float(bits) => double::to_u32(bits),
                },
                _ => 1280,
            },
            None => 1280,
        },
        None => 1280,
    }
}

/// The width at which a screenshot is painted: the one asked for, 64 at least.
pub open spec fn wide_enough(width: u32) -> u32 {
    if width < 64 {
        64
    } else {
        width
    }
}

/// The width at which a screenshot is painted: the one asked for, 64 at least.
pub fn painted_width(width: u32) -> (r: u32)
    ensures
        r == wide_enough(width),
        r == if width < 64 {
            64
        } else {
            width
        },
{
    if width < 64 {
        64
    } else {
        width
    }
}

/// The image of a screenshot: of the page where it could be painted, else a
/// blank one, else nothing.
pub open spec fn image_of(page: Option<Seq<u8>>, blank: Option<Seq<u8>>) -> Seq<u8> {
    match page {
        Some(b) => b,
        None => match blank {
            Some(b) => b,
            None => Seq::empty(),
        },
    }
}

/// The image of a screenshot: of the page where it could be painted, else a
/// blank one, else nothing.
pub fn screenshot_image(page: Option<Vec<u8>>, blank: Option<Vec<u8>>) -> (r: Vec<u8>)
    ensures
        r@ == image_of(codec::bytes_view(page), codec::bytes_view(blank)),
        r@ == match codec::bytes_view(page) {
            Some(b) => b,
            None => match codec::bytes_view(blank) {
                Some(b) => b,
                None => Seq::empty(),
            },
        },
{
    match page {
        Some(b) => b,
        None => match blank {
            Some(b) => b,
            None => Vec::new(),
        },
    }
}

/// The answer to `Page.captureScreenshot`.
pub open spec fn screenshot_reply(image: Seq<u8>, width: u32) -> JsonView {
    JsonView::Object(
        seq![
            ("data"@, JsonView::Text(codec::base64_text(image))),
            (
                "metadata"@,
                JsonView::Object(
                    seq![
                        ("pageScaleFactor"@, count(1)),
                        ("deviceWidth"@, count(width as u64)),
                        ("deviceHeight"@, count(720)),
                    ],
                ),
            ),
        ],
    )
}

/// `Page.captureScreenshot`: the image in base64, with the width asked for.
pub fn capture_screenshot(image: &[u8], width: u32) -> (r: DomainResult)
    ensures
        protocol::outcome(r) == protocol::gives(screenshot_reply(image@, width)),
{
    let data: String = codec::base64_encode(image);
    let metadata: Json = ObjectBuilder::new().with("pageScaleFactor", Json::whole(1)).with(
        "deviceWidth",
        Json::whole(width as u64),
    ).with("deviceHeight", Json::whole(720)).build();
    let reply: Json = ObjectBuilder::new().with_text("data", data.as_str()).with(
        "metadata",
        metadata,
    ).build();
    proof {
        let want = screenshot_reply(image@, width)->Object_0;
        assert(metadata@->Object_0 =~= want[1].1->Object_0);
        assert(reply@->Object_0 =~= want);
    }
    Ok(Some(reply))
}

/// The answer to `Page.printToPDF`.
pub open spec fn printed() -> JsonView {
    JsonView::Object(seq![("data"@, JsonView::Text(""@)), ("stream"@, JsonView::Text(""@))])
}

/// `Page.printToPDF`: an empty document.
pub fn print_to_pdf() -> (r: DomainResult)
    ensures
        protocol::outcome(r) == protocol::gives(printed()),
{
    let reply: Json = ObjectBuilder::new().with_text("data", "").with_text("stream", "").build();
    assert(reply@->Object_0 =~= seq![
        ("data"@, JsonView::Text(""@)),
        ("stream"@, JsonView::Text(""@)),
    ]);
    Ok(Some(reply))
}

/// The name of a command.
pub open spec fn command_name(m: PageMethod) -> Seq<char> {
    match m {
        PageMethod::Enable => "enable"@,
        PageMethod::Disable => "disable"@,
        PageMethod::Navigate => "navigate"@,
        PageMethod::Reload => "reload"@,
        PageMethod::GetFrameTree => "getFrameTree"@,
        PageMethod::GetFrameMetrics => "getFrameMetrics"@,
        PageMethod::CaptureScreenshot => "captureScreenshot"@,
        PageMethod::PrintToPdf => "printToPDF"@,
        PageMethod::GetLifecycleEvents => "getLifecycleEvents"@,
        PageMethod::SetLifecycleEventsEnabled => "setLifecycleEventsEnabled"@,
    }
}

/// Each command is found under its own name and under no other.
pub proof fn lemma_command_names(m: PageMethod, name: Seq<char>)
    ensures
        method_named(command_name(m)) == Some(m),
        method_named(name) == Some(m) ==> name == command_name(m),
{
    reveal_strlit("enable");
    reveal_strlit("disable");
    reveal_strlit("navigate");
    reveal_strlit("reload");
    reveal_strlit("getFrameTree");
    reveal_strlit("getFrameMetrics");
    reveal_strlit("captureScreenshot");
    reveal_strlit("printToPDF");
    reveal_strlit("getLifecycleEvents");
    reveal_strlit("setLifecycleEventsEnabled");
    assert("enable"@[0] == 'e' && "reload"@[0] == 'r');
    assert("enable"@.len() == 6 && "disable"@.len() == 7 && "navigate"@.len() == 8);
    assert("reload"@.len() == 6 && "getFrameTree"@.len() == 12 && "getFrameMetrics"@.len() == 15);
    assert("captureScreenshot"@.len() == 17 && "printToPDF"@.len() == 10);
    assert("getLifecycleEvents"@.len() == 18 && "setLifecycleEventsEnabled"@.len() == 25);
}

/// The events are switched as `enabled` says, and off where it says nothing.
pub proof fn lemma_lifecycle(p: JsonView, b: bool)
    ensures
        p.field("enabled"@) == Some(JsonView::Bool(b)) ==> lifecycle_wanted(Some(p)) == b,
        p.field("enabled"@) is None ==> !lifecycle_wanted(Some(p)),
        !lifecycle_wanted(None),
{
}

/// A navigation goes to the URL that it is given, a reload to the one that the
/// page has; where there is none, to a blank page.
pub proof fn lemma_destination(p: JsonView, url: Seq<char>)
    ensures
        p.field("url"@) == Some(JsonView::Text(url)) ==> navigation_url(Some(p)) == url,
        p.field("url"@) is None ==> navigation_url(Some(p)) == navigation_url(None),
        url_or_blank(Some(url)) == url,
        url_or_blank(None) == navigation_url(None),
{
}

/// The first event of a navigation tells of the request: its id, its loader, and
/// the URL, which is both the document's and the request's, and when it was sent.
pub proof fn lemma_request_told(
    request_id: Seq<char>,
    loader_id: Seq<char>,
    url: Seq<char>,
    timestamp: Number,
    wall_time: Number,
)
    ensures
        ({
            let p = will_be_sent(request_id, loader_id, url, timestamp, wall_time);
            &&& p.text_field("requestId"@) == Some(request_id)
            &&& p.text_field("loaderId"@) == Some(loader_id)
            &&& p.text_field("documentURL"@) == Some(url)
            &&& p.field("timestamp"@) == Some(JsonView::Number(timestamp))
            &&& p.field("wallTime"@) == Some(JsonView::Number(wall_time))
            &&& p.field("request"@) matches Some(r) && r.text_field("url"@) == Some(url)
        }),
{
    reveal_strlit("requestId");
    reveal_strlit("loaderId");
    reveal_strlit("documentURL");
    reveal_strlit("request");
    reveal_strlit("timestamp");
    reveal_strlit("wallTime");
    reveal_strlit("url");
    assert("requestId"@[0] == 'r' && "timestamp"@[0] == 't' && "loaderId"@[0] == 'l' && "wallTime"@[0]
        == 'w' && "documentURL"@[0] == 'd');
    assert("requestId"@.len() == 9 && "request"@.len() == 7);
    let p = will_be_sent(request_id, loader_id, url, timestamp, wall_time);
    let ms = p->Object_0;
    json::lemma_field(ms, 0, "requestId"@);
    json::lemma_field(ms, 1, "loaderId"@);
    json::lemma_field(ms, 2, "documentURL"@);
    json::lemma_field(ms, 3, "request"@);
    json::lemma_field(ms, 4, "timestamp"@);
    json::lemma_field(ms, 5, "wallTime"@);
    json::lemma_field(ms[3].1->Object_0, 0, "url"@);
}

/// The frame that was navigated or reloaded is told by its id, its loader and
/// its URL, and the answer to the command names the same frame and loader.
pub proof fn lemma_frame_told(frame_id: Seq<char>, loader_id: Seq<char>, url: Seq<char>)
    ensures
        (frame_navigated(frame_id, loader_id, url).field("frame"@) matches Some(f) && f.text_field(
            "id"@,
        ) == Some(frame_id) && f.text_field("loaderId"@) == Some(loader_id) && f.text_field("url"@)
            == Some(url) && f.text_field("securityOrigin"@) == Some(url)),
        (frame_reloaded(frame_id, loader_id, url).field("frame"@) matches Some(f) && f.text_field(
            "id"@,
        ) == Some(frame_id) && f.text_field("loaderId"@) == Some(loader_id) && f.text_field("url"@)
            == Some(url)),
        navigate_reply(frame_id, loader_id).text_field("frameId"@) == Some(frame_id),
        navigate_reply(frame_id, loader_id).text_field("loaderId"@) == Some(loader_id),
        navigate_reply(frame_id, loader_id).field("errorText"@) == Some(JsonView::Null),
        reload_reply(frame_id, loader_id).text_field("frameId"@) == Some(frame_id),
        reload_reply(frame_id, loader_id).text_field("loaderId"@) == Some(loader_id),
{
    reveal_strlit("frame");
    reveal_strlit("id");
    reveal_strlit("loaderId");
    reveal_strlit("url");
    reveal_strlit("domainAndRegistry");
    reveal_strlit("securityOrigin");
    reveal_strlit("frameId");
    reveal_strlit("errorText");
    assert("id"@.len() == 2 && "url"@.len() == 3 && "loaderId"@.len() == 8);
    assert("frameId"@.len() == 7 && "errorText"@.len() == 9 && "securityOrigin"@.len() == 14);
    assert("domainAndRegistry"@.len() == 17);
    let n = frame_navigated(frame_id, loader_id, url)->Object_0;
    let r = frame_reloaded(frame_id, loader_id, url)->Object_0;
    json::lemma_field(n, 0, "frame"@);
    json::lemma_field(r, 0, "frame"@);
    json::lemma_field(n[0].1->Object_0, 0, "id"@);
    json::lemma_field(n[0].1->Object_0, 1, "loaderId"@);
    json::lemma_field(n[0].1->Object_0, 2, "url"@);
    json::lemma_field(n[0].1->Object_0, 4, "securityOrigin"@);
    json::lemma_field(r[0].1->Object_0, 0, "id"@);
    json::lemma_field(r[0].1->Object_0, 1, "loaderId"@);
    json::lemma_field(r[0].1->Object_0, 2, "url"@);
    let a = navigate_reply(frame_id, loader_id)->Object_0;
    json::lemma_field(a, 0, "frameId"@);
    json::lemma_field(a, 1, "loaderId"@);
    json::lemma_field(a, 2, "errorText"@);
    let b = reload_reply(frame_id, loader_id)->Object_0;
    json::lemma_field(b, 0, "frameId"@);
    json::lemma_field(b, 1, "loaderId"@);
}

/// What is sent behind a navigation speaks of that navigation: of its frame, of
/// its request, loader and URL with a success, and of one time.
pub proof fn lemma_sent_speaks(
    frame: JsonView,
    request_id: Seq<char>,
    loader_id: Seq<char>,
    url: Seq<char>,
    timestamp: Number,
)
    ensures
        ({
            let v = sent_after(frame, request_id, loader_id, url, timestamp);
            &&& v.len() == 4
            &&& v[0] matches EmissionView::Event(e) && e.params == frame
            &&& v[1] matches EmissionView::ResponseEvents {
                request_id: r,
                url: u,
                loader_id: l,
                status,
                ..
            } && r == request_id && u == url && l == loader_id && status == 200
            &&& v[2] matches EmissionView::Event(e) && e.params.field("timestamp"@) == Some(
                JsonView::Number(timestamp),
            )
            &&& v[3] matches EmissionView::Event(e) && e.params.field("timestamp"@) == Some(
                JsonView::Number(timestamp),
            )
        }),
{
    let v = sent_after(frame, request_id, loader_id, url, timestamp);
    let ms = seq![("timestamp"@, JsonView::Number(timestamp))];
    json::lemma_field(ms, 0, "timestamp"@);
}

/// The frame tree of a page is its root frame, with its id, URL and origin, and
/// without frames below it.
pub proof fn lemma_frame_tree(id: Seq<char>, url: Seq<char>, origin: Seq<char>)
    ensures
        (frame_tree(id, url, origin).field("frameTree"@) matches Some(t) && (
        t.field("frame"@) matches Some(f) && f.text_field("id"@) == Some(id) && f.text_field("url"@)
            == Some(url) && f.text_field("securityOrigin"@) == Some(origin)) && (
        t.array_field("childFrames"@) matches Some(c) && c.len() == 0)),
{
    reveal_strlit("frameTree");
    reveal_strlit("frame");
    reveal_strlit("childFrames");
    reveal_strlit("id");
    reveal_strlit("url");
    reveal_strlit("securityOrigin");
    assert("id"@.len() == 2 && "url"@.len() == 3 && "securityOrigin"@.len() == 14);
    assert("frame"@.len() == 5 && "childFrames"@.len() == 11);
    let ms = frame_tree(id, url, origin)->Object_0;
    json::lemma_field(ms, 0, "frameTree"@);
    let ts = ms[0].1->Object_0;
    json::lemma_field(ts, 0, "frame"@);
    json::lemma_field(ts, 1, "childFrames"@);
    let fs = ts[0].1->Object_0;
    json::lemma_field(fs, 0, "id"@);
    json::lemma_field(fs, 1, "url"@);
    json::lemma_field(fs, 2, "securityOrigin"@);
}

/// A screenshot is as wide as its clip asks for, as far as 32 bits hold that: a
/// whole number as it is, a negative one as none. Without a clip it is 1280 wide.
pub proof fn lemma_clip_width(p: JsonView, clip: JsonView, n: u64, m: i64)
    requires
        p.field("clip"@) == Some(clip),
        m < 0,
    ensures
        clip.field("width"@) == Some(JsonView::Number(Number::PosInt(n))) ==> clip_width(Some(p))
            == (if n <= u32::MAX {
            n as int
        } else {
            u32::MAX as int
        }),
        clip.field("width"@) == Some(JsonView::Number(Number::NegInt(m))) ==> clip_width(Some(p))
            == 0,
        clip.field("width"@) == Some(JsonView::Number(Number::Float(n))) && 0 <= double::truncated(n)
            <= u32::MAX ==> clip_width(Some(p)) == double::truncated(n),
        clip.field("width"@) is None ==> clip_width(Some(p)) == 1280,
        clip_width(None) == 1280,
{
}

/// The data of a screenshot decodes to the image, and it tells the width.
pub proof fn lemma_screenshot(image: Seq<u8>, width: u32)
    ensures
        (screenshot_reply(image, width).text_field("data"@) matches Some(t) && codec::base64_bytes(t)
            == Some(image)),
        (screenshot_reply(image, width).field("metadata"@) matches Some(m) && m.int_field(
            "deviceWidth"@,
        ) == Some(width as int)),
{
    reveal_strlit("data");
    reveal_strlit("metadata");
    reveal_strlit("pageScaleFactor");
    reveal_strlit("deviceWidth");
    assert("data"@.len() == 4 && "metadata"@.len() == 8);
    assert("pageScaleFactor"@.len() == 15 && "deviceWidth"@.len() == 11);
    codec::lemma_base64_round_trip(image);
    let ms = screenshot_reply(image, width)->Object_0;
    json::lemma_field(ms, 0, "data"@);
    json::lemma_field(ms, 1, "metadata"@);
    json::lemma_field(ms[1].1->Object_0, 1, "deviceWidth"@);
}

/// A navigation that has begun is told to the client under the very ids that it
/// goes on with, and with the URL that it goes to.
pub proof fn lemma_begun_told(
    b: Begun,
    url: Seq<char>,
    loader: Seq<char>,
    request: Seq<char>,
    timestamp: Number,
    wall_time: Number,
)
    requires
        begun_with(b, url, loader, request, timestamp, wall_time),
    ensures
        b.url@ == url,
        text::finishes_with(b.loader_id@, loader),
        text::finishes_with(b.request_id@, request),
        b.event@.params.text_field("requestId"@) == Some(b.request_id@),
        b.event@.params.text_field("loaderId"@) == Some(b.loader_id@),
        b.event@.params.text_field("documentURL"@) == Some(b.url@),
        b.event@.params.field("timestamp"@) == Some(JsonView::Number(timestamp)),
        b.event@.params.field("wallTime"@) == Some(JsonView::Number(wall_time)),
        b.loader_id@[0] == 'L' && b.request_id@[0] == 'R',
{
    reveal_strlit("LID-");
    reveal_strlit("REQ-");
    lemma_request_told(b.request_id@, b.loader_id@, b.url@, timestamp, wall_time);
    let l = b.loader_id@;
    let r = b.request_id@;
    assert(l.subrange(l.len() - loader.len(), l.len() as int) =~= loader);
    assert(r.subrange(r.len() - request.len(), r.len() as int) =~= request);
}

/// The frame is as large as its content and as what is seen of it, and nothing
/// is scrolled or scaled.
pub proof fn lemma_frame_metrics()
    ensures
        ({
            let m = frame_metrics();
            &&& m.field("layoutViewport"@) matches Some(l) && l.int_field("clientWidth"@) == Some(
                1280int,
            ) && l.int_field("clientHeight"@) == Some(720int) && l.int_field("pageX"@) == Some(0int)
                && l.int_field("pageY"@) == Some(0int)
            &&& m.field("visualViewport"@) matches Some(v) && v.int_field("clientWidth"@) == Some(
                1280int,
            ) && v.int_field("clientHeight"@) == Some(720int) && v.int_field("scale"@) == Some(1int)
            &&& m.field("contentSize"@) matches Some(c) && c.int_field("width"@) == Some(1280int)
                && c.int_field("height"@) == Some(720int)
        }),
{
    reveal_strlit("layoutViewport");
    reveal_strlit("visualViewport");
    reveal_strlit("contentSize");
    reveal_strlit("pageX");
    reveal_strlit("pageY");
    reveal_strlit("offsetX");
    reveal_strlit("offsetY");
    reveal_strlit("clientWidth");
    reveal_strlit("clientHeight");
    reveal_strlit("scale");
    reveal_strlit("width");
    reveal_strlit("height");
    assert("layoutViewport"@[0] == 'l' && "visualViewport"@[0] == 'v' && "contentSize"@[0] == 'c');
    assert("pageX"@[4] == 'X' && "pageY"@[4] == 'Y' && "pageX"@.len() == 5 && "pageY"@.len() == 5);
    assert("offsetX"@.len() == 7 && "offsetY"@.len() == 7 && "clientWidth"@.len() == 11);
    assert("clientHeight"@.len() == 12 && "scale"@.len() == 5 && "scale"@[0] == 's');
    assert("pageX"@[0] == 'p' && "pageY"@[0] == 'p');
    assert("width"@[0] == 'w' && "height"@[0] == 'h');
    let ms = frame_metrics()->Object_0;
    json::lemma_field(ms, 0, "layoutViewport"@);
    json::lemma_field(ms, 1, "visualViewport"@);
    json::lemma_field(ms, 2, "contentSize"@);
    let l = ms[0].1->Object_0;
    json::lemma_field(l, 0, "pageX"@);
    json::lemma_field(l, 1, "pageY"@);
    json::lemma_field(l, 2, "clientWidth"@);
    json::lemma_field(l, 3, "clientHeight"@);
    let v = ms[1].1->Object_0;
    json::lemma_field(v, 4, "clientWidth"@);
    json::lemma_field(v, 5, "clientHeight"@);
    json::lemma_field(v, 6, "scale"@);
    let c = ms[2].1->Object_0;
    json::lemma_field(c, 0, "width"@);
    json::lemma_field(c, 1, "height"@);
}

/// The client is told of the frame and the URL that the session is at; what the
/// session does not say is the main frame, and the URL that was asked for.
pub proof fn lemma_landed(l: Landed, url: Seq<char>, asked: Seq<char>)
    ensures
        l.frame_id matches Some(f) ==> landed_frame(l) == f@,
        l.frame_id is None ==> landed_frame(l) == seq!['m', 'a', 'i', 'n'],
        landed_url(Some(url), asked) == url,
        landed_url(None, asked) == asked,
{
    reveal_strlit("main");
    assert("main"@ =~= seq!['m', 'a', 'i', 'n']);
}

/// A screenshot is painted as wide as asked for, and never less than 64 wide.
/// It shows the page where that could be painted, and is blank only where not.
pub proof fn lemma_screenshot_painted(width: u32, page: Seq<u8>, blank: Option<Seq<u8>>)
    ensures
        wide_enough(width) >= 64,
        wide_enough(width) >= width,
        wide_enough(width) == 64 || wide_enough(width) == width,
        image_of(Some(page), blank) == page,
        blank matches Some(b) ==> image_of(None, blank) == b,
        blank is None ==> image_of(None, blank).len() == 0,
{
}

/// The request of a navigation is a `GET` without headers of its own for the
/// document of the main frame; no gesture of a user brought it about.
pub proof fn lemma_request_kind(
    request_id: Seq<char>,
    loader_id: Seq<char>,
    url: Seq<char>,
    timestamp: Number,
    wall_time: Number,
)
    ensures
        ({
            let p = will_be_sent(request_id, loader_id, url, timestamp, wall_time);
            &&& p.text_field("type"@) == Some("Document"@)
            &&& p.text_field("frameId"@) == Some("main"@)
            &&& p.bool_field("hasUserGesture"@) == Some(false)
            &&& (p.field("initiator"@) matches Some(i) && i.text_field("type"@) == Some("other"@))
            &&& (p.field("request"@) matches Some(r) && r.text_field("method"@) == Some("GET"@)
                && r.text_field("initialPriority"@) == Some("VeryHigh"@) && r.text_field(
                "urlFragment"@,
            ) == Some(""@) && (r.field("headers"@) matches Some(JsonView::Object(h)) && h.len()
                == 0))
        }),
{
    reveal_strlit("requestId");
    reveal_strlit("loaderId");
    reveal_strlit("documentURL");
    reveal_strlit("request");
    reveal_strlit("timestamp");
    reveal_strlit("wallTime");
    reveal_strlit("initiator");
    reveal_strlit("type");
    reveal_strlit("frameId");
    reveal_strlit("hasUserGesture");
    reveal_strlit("url");
    reveal_strlit("method");
    reveal_strlit("headers");
    reveal_strlit("initialPriority");
    reveal_strlit("urlFragment");
    assert("requestId"@.len() == 9 && "loaderId"@.len() == 8);
    assert("documentURL"@.len() == 11 && "request"@.len() == 7);
    assert("timestamp"@.len() == 9 && "wallTime"@.len() == 8);
    assert("initiator"@.len() == 9 && "type"@.len() == 4);
    assert("frameId"@.len() == 7 && "hasUserGesture"@.len() == 14);
    assert("url"@.len() == 3 && "method"@.len() == 6);
    assert("headers"@.len() == 7 && "initialPriority"@.len() == 15);
    assert("urlFragment"@.len() == 11 && "requestId"@[0] == 'r');
    assert("timestamp"@[0] == 't' && "loaderId"@[0] == 'l');
    assert("wallTime"@[0] == 'w' && "initiator"@[0] == 'i');
    assert("request"@[0] == 'r' && "frameId"@[0] == 'f');
    assert("headers"@[0] == 'h' && "documentURL"@[0] == 'd');
    assert("urlFragment"@[0] == 'u');
    let ms = will_be_sent(request_id, loader_id, url, timestamp, wall_time)->Object_0;
    json::lemma_field(ms, 3, "request"@);
    json::lemma_field(ms, 6, "initiator"@);
    json::lemma_field(ms, 7, "type"@);
    json::lemma_field(ms, 8, "frameId"@);
    json::lemma_field(ms, 9, "hasUserGesture"@);
    json::lemma_field(ms[6].1->Object_0, 0, "type"@);
    let rs = ms[3].1->Object_0;
    json::lemma_field(rs, 1, "method"@);
    json::lemma_field(rs, 2, "headers"@);
    json::lemma_field(rs, 3, "initialPriority"@);
    json::lemma_field(rs, 4, "urlFragment"@);
}

/// A frame that was navigated or reloaded holds an HTML document, and came to it
/// by a navigation; one that was navigated is secure, and neither isolated nor
/// an advertisement.
pub proof fn lemma_frame_kind(frame_id: Seq<char>, loader_id: Seq<char>, url: Seq<char>)
    ensures
        ({
            let n = frame_navigated(frame_id, loader_id, url);
            let r = frame_reloaded(frame_id, loader_id, url);
            &&& n.text_field("type"@) == Some("Navigation"@)
            &&& r.text_field("type"@) == Some("Navigation"@)
            &&& (n.field("frame"@) matches Some(f) && f.text_field("mimeType"@) == Some(
                "text/html"@,
            ) && f.text_field("domainAndRegistry"@) == Some(""@) && f.text_field(
                "secureContextType"@,
            ) == Some("Secure"@) && f.text_field("crossOriginIsolatedContextType"@) == Some(
                "NotIsolated"@,
            ) && (f.field("adFrameStatus"@) matches Some(a) && a.text_field("adFrameType"@)
                == Some("none"@)))
            &&& (r.field("frame"@) matches Some(f) && f.text_field("mimeType"@) == Some(
                "text/html"@,
            ))
        }),
{
    reveal_strlit("frame");
    reveal_strlit("type");
    reveal_strlit("id");
    reveal_strlit("loaderId");
    reveal_strlit("url");
    reveal_strlit("domainAndRegistry");
    reveal_strlit("securityOrigin");
    reveal_strlit("mimeType");
    reveal_strlit("adFrameStatus");
    reveal_strlit("secureContextType");
    reveal_strlit("crossOriginIsolatedContextType");
    assert("frame"@.len() == 5 && "type"@.len() == 4);
    assert("id"@.len() == 2 && "loaderId"@.len() == 8);
    assert("url"@.len() == 3 && "domainAndRegistry"@.len() == 17);
    assert("securityOrigin"@.len() == 14 && "mimeType"@.len() == 8);
    assert("adFrameStatus"@.len() == 13 && "secureContextType"@.len() == 17);
    assert("crossOriginIsolatedContextType"@.len() == 30 && "loaderId"@[0] == 'l');
    assert("mimeType"@[0] == 'm' && "domainAndRegistry"@[0] == 'd');
    assert("secureContextType"@[0] == 's');
    let ns = frame_navigated(frame_id, loader_id, url)->Object_0;
    let rs = frame_reloaded(frame_id, loader_id, url)->Object_0;
    json::lemma_field(ns, 0, "frame"@);
    json::lemma_field(ns, 1, "type"@);
    json::lemma_field(rs, 0, "frame"@);
    json::lemma_field(rs, 1, "type"@);
    let f = ns[0].1->Object_0;
    json::lemma_field(f, 3, "domainAndRegistry"@);
    json::lemma_field(f, 5, "mimeType"@);
    json::lemma_field(f, 6, "adFrameStatus"@);
    json::lemma_field(f, 7, "secureContextType"@);
    json::lemma_field(f, 8, "crossOriginIsolatedContextType"@);
    json::lemma_field(f[6].1->Object_0, 0, "adFrameType"@);
    json::lemma_field(rs[0].1->Object_0, 3, "mimeType"@);
}

/// The frame of a frame tree holds an HTML document; a screenshot is not scaled,
/// and tells the height of the viewport; what is seen of a frame is not moved.
pub proof fn lemma_unscaled(id: Seq<char>, url: Seq<char>, origin: Seq<char>, image: Seq<u8>, width: u32)
    ensures
        (frame_tree(id, url, origin).field("frameTree"@) matches Some(t) && (t.field("frame"@)
            matches Some(f) && f.text_field("mimeType"@) == Some("text/html"@))),
        (screenshot_reply(image, width).field("metadata"@) matches Some(m) && m.int_field(
            "pageScaleFactor"@,
        ) == Some(1int) && m.int_field("deviceHeight"@) == Some(720int)),
        (frame_metrics().field("visualViewport"@) matches Some(v) && v.int_field("offsetX"@) == Some(
            0int,
        ) && v.int_field("offsetY"@) == Some(0int) && v.int_field("pageX"@) == Some(0int)
            && v.int_field("pageY"@) == Some(0int) && v.int_field("zoom"@) == Some(1int)),
{
    reveal_strlit("frameTree");
    reveal_strlit("frame");
    reveal_strlit("id");
    reveal_strlit("url");
    reveal_strlit("securityOrigin");
    reveal_strlit("mimeType");
    reveal_strlit("data");
    reveal_strlit("metadata");
    reveal_strlit("pageScaleFactor");
    reveal_strlit("deviceWidth");
    reveal_strlit("deviceHeight");
    reveal_strlit("layoutViewport");
    reveal_strlit("visualViewport");
    reveal_strlit("offsetX");
    reveal_strlit("offsetY");
    reveal_strlit("pageX");
    reveal_strlit("pageY");
    reveal_strlit("clientWidth");
    reveal_strlit("clientHeight");
    reveal_strlit("scale");
    reveal_strlit("zoom");
    assert("frameTree"@.len() == 9 && "frame"@.len() == 5);
    assert("id"@.len() == 2 && "url"@.len() == 3);
    assert("securityOrigin"@.len() == 14 && "mimeType"@.len() == 8);
    assert("data"@.len() == 4 && "metadata"@.len() == 8);
    assert("pageScaleFactor"@.len() == 15 && "deviceWidth"@.len() == 11);
    assert("deviceHeight"@.len() == 12 && "layoutViewport"@.len() == 14);
    assert("visualViewport"@.len() == 14 && "offsetX"@.len() == 7);
    assert("offsetY"@.len() == 7 && "pageX"@.len() == 5);
    assert("pageY"@.len() == 5 && "clientWidth"@.len() == 11);
    assert("clientHeight"@.len() == 12 && "scale"@.len() == 5);
    assert("zoom"@.len() == 4 && "mimeType"@[1] == 'i');
    assert("metadata"@[1] == 'e' && "securityOrigin"@[0] == 's');
    assert("layoutViewport"@[0] == 'l' && "visualViewport"@[0] == 'v');
    assert("offsetX"@[6] == 'X' && "offsetY"@[6] == 'Y');
    assert("frame"@[0] == 'f' && "pageX"@[0] == 'p');
    assert("pageY"@[0] == 'p' && "pageX"@[4] == 'X');
    assert("pageY"@[4] == 'Y' && "deviceWidth"@[0] == 'd');
    assert("clientWidth"@[0] == 'c' && "deviceHeight"@[0] == 'd');
    assert("clientHeight"@[0] == 'c' && "scale"@[0] == 's');
    assert("data"@[0] == 'd' && "zoom"@[0] == 'z');
    let ts = frame_tree(id, url, origin)->Object_0;
    json::lemma_field(ts, 0, "frameTree"@);
    json::lemma_field(ts[0].1->Object_0, 0, "frame"@);
    json::lemma_field(ts[0].1->Object_0[0].1->Object_0, 3, "mimeType"@);
    let ss = screenshot_reply(image, width)->Object_0;
    json::lemma_field(ss, 1, "metadata"@);
    json::lemma_field(ss[1].1->Object_0, 0, "pageScaleFactor"@);
    json::lemma_field(ss[1].1->Object_0, 2, "deviceHeight"@);
    let ms = frame_metrics()->Object_0;
    json::lemma_field(ms, 1, "visualViewport"@);
    let v = ms[1].1->Object_0;
    json::lemma_field(v, 0, "offsetX"@);
    json::lemma_field(v, 1, "offsetY"@);
    json::lemma_field(v, 2, "pageX"@);
    json::lemma_field(v, 3, "pageY"@);
    json::lemma_field(v, 7, "zoom"@);
}

/// A printed page is an empty document, and there is no stream of it.
pub proof fn lemma_printed()
    ensures
        printed().text_field("data"@) == Some(Seq::<char>::empty()),
        printed().text_field("stream"@) == Some(Seq::<char>::empty()),
{
    reveal_strlit("data");
    reveal_strlit("stream");
    reveal_strlit("");
    assert("data"@.len() == 4 && "stream"@.len() == 6);
    assert(""@ =~= Seq::<char>::empty());
    json::lemma_field(printed()->Object_0, 0, "data"@);
    json::lemma_field(printed()->Object_0, 1, "stream"@);
}

/// What is sent at the end of a navigation or a reload goes by the request and
/// the loader that it began with, and by the frame, the URL and the time with
/// which it was over. Without a URL of the session a navigation goes by the one
/// that was asked for.
pub proof fn lemma_end_told(b: Begun, l: Landed)
    ensures
        ({
            let v = navigate_sent(b, l);
            &&& v.len() == 4
            &&& (v[0] matches EmissionView::Event(e) && (e.params.field("frame"@) matches Some(f)
                && f.text_field("id"@) == Some(landed_frame(l)) && f.text_field("loaderId"@)
                == Some(b.loader_id@) && (l.current_url matches Some(u) ==> f.text_field("url"@)
                == Some(u@)) && (
                l.current_url is None ==> f.text_field("url"@) == Some(b.url@))))
            &&& (v[1] matches EmissionView::ResponseEvents {
                request_id,
                url,
                loader_id,
                status,
                mime_type,
            } && request_id == b.request_id@ && loader_id == b.loader_id@ && status == 200
                && mime_type == "text/html"@ && (l.current_url matches Some(u) ==> url == u@) && (l.current_url is None ==> url == b.url@))
            &&& (v[2] matches EmissionView::Event(e) && e.params.field("timestamp"@) == Some(
                JsonView::Number(l.timestamp),
            ))
            &&& (v[3] matches EmissionView::Event(e) && e.params.field("timestamp"@) == Some(
                JsonView::Number(l.timestamp),
            ))
        }),
        ({
            let v = reload_sent(b, l);
            &&& v.len() == 4
            &&& (v[0] matches EmissionView::Event(e) && (e.params.field("frame"@) matches Some(f)
                && f.text_field("id"@) == Some(landed_frame(l)) && f.text_field("loaderId"@)
                == Some(b.loader_id@) && (l.current_url matches Some(u) ==> f.text_field("url"@)
                == Some(u@))))
            &&& (v[1] matches EmissionView::ResponseEvents {
                request_id,
                url,
                loader_id,
                status,
                mime_type,
            } && request_id == b.request_id@ && loader_id == b.loader_id@ && status == 200
                && mime_type == "text/html"@ && (l.current_url matches Some(u) ==> url == u@))
            &&& (v[2] matches EmissionView::Event(e) && e.params.field("timestamp"@) == Some(
                JsonView::Number(l.timestamp),
            ))
            &&& (v[3] matches EmissionView::Event(e) && e.params.field("timestamp"@) == Some(
                JsonView::Number(l.timestamp),
            ))
        }),
{
    let url = landed_url(codec::text_view(l.current_url), b.url@);
    let blank = url_or_blank(codec::text_view(l.current_url));
    let frame = landed_frame(l);
    let loader = b.loader_id@;
    lemma_frame_told(frame, loader, url);
    lemma_frame_told(frame, loader, blank);
    lemma_sent_speaks(
        frame_navigated(frame, loader, url),
        b.request_id@,
        loader,
        url,
        l.timestamp,
    );
    lemma_sent_speaks(
        frame_reloaded(frame, loader, blank),
        b.request_id@,
        loader,
        blank,
        l.timestamp,
    );
}

} // verus!
