use oxibrowser::cdp::page::{
    begin_as, capture_screenshot, disable, enable, get_frame_metrics, get_frame_tree,
    get_lifecycle_events, navigate, navigate_end, painted_width, print_to_pdf, reload, reload_end,
    root_frame, route, screenshot_image, set_lifecycle_events_enabled, viewport_width, Emission,
    Landed, PageMethod,
};
use oxibrowser::cdp::protocol::{CdpEvent, CdpRequest};
use oxibrowser::cdp::session::{
    answer, handle_text_message, new_session_id, next_action, oversized, unreadable, Action,
    Handling, Incoming,
};
use oxibrowser::json::{Json, Number, ObjectBuilder};

const T: Number = Number::PosInt(1000);

fn landed(frame: Option<&str>, url: Option<&str>) -> Landed {
    Landed {
        frame_id: frame.map(String::from),
        current_url: url.map(String::from),
        timestamp: Number::PosInt(2000),
    }
}

fn names(sent: &[Emission]) -> Vec<&str> {
    let mut v = Vec::new();
    for e in sent {
        match e {
            Emission::Event(e) => v.push(e.method.as_str()),
            Emission::ResponseEvents { .. } => {
                v.push("Network.responseReceived");
                v.push("Network.loadingFinished");
            }
        }
    }
    v
}

#[test]
fn methods_are_routed_by_name() {
    assert_eq!(route("navigate"), Ok(PageMethod::Navigate));
    assert_eq!(route("printToPDF"), Ok(PageMethod::PrintToPdf));
    assert_eq!(
        route("setLifecycleEventsEnabled"),
        Ok(PageMethod::SetLifecycleEventsEnabled)
    );
    let e = route("bringToFront").unwrap_err();
    assert_eq!(e.code, -32601);
    assert_eq!(e.message, "Page.bringToFront not implemented");
}

#[test]
fn page_events_are_switched() {
    let mut on = false;
    assert_eq!(enable(&mut on), Ok(Some(Json::empty_object())));
    assert!(on);
    assert_eq!(disable(&mut on), Ok(Some(Json::empty_object())));
    assert!(!on);
    let yes = ObjectBuilder::new().with("enabled", Json::Bool(true)).build();
    assert!(set_lifecycle_events_enabled(Some(&yes), &mut on).is_ok());
    assert!(on);
    assert!(set_lifecycle_events_enabled(None, &mut on).is_ok());
    assert!(!on);
}

#[test]
fn a_navigation_sends_its_events_in_order() {
    let begun = begin_as("http://a/", "l", "r", T, Number::PosInt(1));
    assert_eq!(begun.loader_id, "LID-l");
    assert_eq!(begun.request_id, "REQ-r");
    assert_eq!(begun.event.method, "Network.requestWillBeSent");
    assert_eq!(begun.event.params.get_text("documentURL").unwrap(), "http://a/");
    assert_eq!(begun.event.params.get("timestamp"), Some(&Json::Number(T)));
    let (sent, reply) = navigate_end(&begun, Ok(landed(Some("f1"), Some("http://b/"))));
    assert_eq!(
        names(&sent),
        vec![
            "Page.frameNavigated",
            "Network.responseReceived",
            "Network.loadingFinished",
            "Page.domContentLoadedEventFired",
            "Page.loadEventFired",
        ]
    );
    match &sent[0] {
        Emission::Event(e) => {
            let frame = e.params.get("frame").unwrap();
            assert_eq!(frame.get_text("id").unwrap(), "f1");
            assert_eq!(frame.get_text("url").unwrap(), "http://b/");
            assert_eq!(frame.get_text("securityOrigin").unwrap(), "http://b/");
        }
        _ => panic!("no event"),
    }
    match &sent[1] {
        Emission::ResponseEvents { request_id, url, loader_id, status, mime_type } => {
            assert_eq!(request_id, "REQ-r");
            assert_eq!(url, "http://b/");
            assert_eq!(loader_id, "LID-l");
            assert_eq!(*status, 200);
            assert_eq!(*mime_type, "text/html");
        }
        _ => panic!("an event"),
    }
    let reply = reply.unwrap().unwrap();
    assert_eq!(reply.get_text("frameId").unwrap(), "f1");
    assert_eq!(reply.get_text("loaderId").unwrap(), "LID-l");
    assert_eq!(reply.get("errorText"), Some(&Json::Null));
}

#[test]
fn a_failed_navigation_is_an_error() {
    let begun = begin_as("http://a/", "l", "r", T, T);
    let (sent, reply) = navigate_end(&begun, Err("no host".to_string()));
    assert!(sent.is_empty());
    let e = reply.unwrap_err();
    assert_eq!(e.code, -32000);
    assert_eq!(e.message, "Navigation failed: no host");
    let (sent, reply) = reload_end(&begun, Err("gone".to_string()));
    assert!(sent.is_empty());
    assert_eq!(reply.unwrap_err().message, "Reload failed: gone");
}

#[test]
fn navigations_have_defaults_and_ids_of_their_own() {
    let begun = navigate(None, T, T);
    assert_eq!(begun.url, "about:blank");
    assert_eq!(begun.loader_id.len(), 36);
    assert!(begun.loader_id.starts_with("LID-"));
    assert!(begun.request_id[4..].chars().all(|c| c.is_ascii_hexdigit() && !c.is_uppercase()));
    assert_ne!(begun.loader_id[4..], begun.request_id[4..]);
    let params = ObjectBuilder::new().with_text("url", "http://x/").build();
    let begun = navigate(Some(&params), T, T);
    assert_eq!(begun.url, "http://x/");
    let (_, reply) = navigate_end(&begun, Ok(landed(None, None)));
    assert_eq!(reply.unwrap().unwrap().get_text("frameId").unwrap(), "main");
}

#[test]
fn reloads_go_to_the_page_that_is_there() {
    assert_eq!(reload(None, T, T).url, "about:blank");
    let begun = reload(Some("http://a/".to_string()), T, T);
    assert_eq!(begun.url, "http://a/");
    let (sent, reply) = reload_end(&begun, Ok(landed(None, None)));
    assert_eq!(names(&sent).len(), 5);
    match &sent[0] {
        Emission::Event(e) => {
            let frame = e.params.get("frame").unwrap();
            assert_eq!(frame.get_text("url").unwrap(), "about:blank");
            assert_eq!(frame.get("securityOrigin"), None);
        }
        _ => panic!("no event"),
    }
    assert_eq!(reply.unwrap().unwrap().get("errorText"), None);
}

#[test]
fn frame_trees_show_the_root_frame() {
    let f = root_frame("f1", "https://example.com:8080/a");
    assert_eq!(f.origin, "https://example.com:8080");
    let reply = get_frame_tree(Some(f)).unwrap().unwrap();
    let frame = reply.get("frameTree").unwrap().get("frame").unwrap();
    assert_eq!(frame.get_text("id").unwrap(), "f1");
    assert_eq!(frame.get_text("securityOrigin").unwrap(), "https://example.com:8080");
    let reply = get_frame_tree(None).unwrap().unwrap();
    let frame = reply.get("frameTree").unwrap().get("frame").unwrap();
    assert_eq!(frame.get_text("url").unwrap(), "about:blank");
    assert_eq!(root_frame("x", "no url").origin, "");
}

#[test]
fn metrics_lifecycle_and_pdf() {
    let m = get_frame_metrics().unwrap().unwrap();
    assert_eq!(m.get("contentSize").unwrap().get_i64("width"), Some(1280));
    assert_eq!(m.get("visualViewport").unwrap().get_i64("zoom"), Some(1));
    assert_eq!(
        get_lifecycle_events().unwrap().unwrap().get_array("events").unwrap().len(),
        0
    );
    assert_eq!(print_to_pdf().unwrap().unwrap().get_text("data").unwrap(), "");
}

#[test]
fn screenshots_are_as_wide_as_asked_for() {
    let clip = |n: Number| {
        let c = ObjectBuilder::new().with("width", Json::Number(n)).build();
        ObjectBuilder::new().with("clip", c).build()
    };
    assert_eq!(viewport_width(None), 1280);
    assert_eq!(viewport_width(Some(&Json::empty_object())), 1280);
    assert_eq!(viewport_width(Some(&clip(Number::PosInt(300)))), 300);
    assert_eq!(viewport_width(Some(&clip(Number::Float(300.9f64.to_bits())))), 300);
    assert_eq!(viewport_width(Some(&clip(Number::NegInt(-1)))), 0);
    assert_eq!(viewport_width(Some(&clip(Number::PosInt(1 << 40)))), u32::MAX);
    assert_eq!(painted_width(10), 64);
    assert_eq!(painted_width(300), 300);
    assert_eq!(screenshot_image(None, Some(vec![1])), vec![1]);
    assert_eq!(screenshot_image(Some(vec![2]), Some(vec![1])), vec![2]);
    assert!(screenshot_image(None, None).is_empty());
    let reply = capture_screenshot(b"foob", 10).unwrap().unwrap();
    assert_eq!(reply.get_text("data").unwrap(), "Zm9vYg==");
    assert_eq!(reply.get("metadata").unwrap().get_i64("deviceWidth"), Some(10));
}

#[test]
fn messages_that_are_too_large_are_refused() {
    assert!(oversized("abcd", 4).is_none());
    let a = oversized("abc\u{e9}", 4).unwrap();
    assert_eq!(a.id, 0);
    let e = a.error.unwrap();
    assert_eq!(e.code, -32600);
    assert_eq!(e.message, "Message too large: 5 bytes (max 4 bytes)");
    match handle_text_message("too long", 3, Err("x".to_string())) {
        Handling::Reply(a) => assert_eq!(a.error.unwrap().code, -32600),
        Handling::Dispatch(_) => panic!("dispatched"),
    }
}

#[test]
fn messages_that_cannot_be_read_are_refused() {
    let a = unreadable("expected value at line 1");
    let e = a.error.unwrap();
    assert_eq!(e.code, -32700);
    assert_eq!(e.message, "Parse error: expected value at line 1");
    match handle_text_message("{", 100, Err("eof".to_string())) {
        Handling::Reply(a) => assert_eq!(a.error.unwrap().message, "Parse error: eof"),
        Handling::Dispatch(_) => panic!("dispatched"),
    }
    let request = CdpRequest {
        id: Some(3),
        method: "Page.enable".to_string(),
        params: None,
        session_id: None,
    };
    match handle_text_message("{}", 100, Ok(request)) {
        Handling::Dispatch(r) => assert_eq!(r.id, Some(3)),
        Handling::Reply(_) => panic!("refused"),
    }
}

#[test]
fn answers_carry_id_and_session() {
    let a = answer(Some(7), Some("s".to_string()), Ok(None));
    assert_eq!(a.id, 7);
    assert_eq!(a.session_id, Some("s".to_string()));
    assert_eq!(a.result, Some(Json::empty_object()));
    assert!(a.error.is_none());
    let e = route("x").unwrap_err();
    let a = answer(None, None, Err(e));
    assert_eq!(a.id, 0);
    assert!(a.result.is_none());
    assert_eq!(a.error.unwrap().code, -32601);
}

#[test]
fn sessions_go_on_until_something_ends_them() {
    assert!(matches!(next_action(Incoming::Text("t".to_string())), Action::Handle(t) if t == "t"));
    assert!(matches!(next_action(Incoming::Ping(vec![1])), Action::Pong(d) if d == vec![1]));
    assert!(matches!(next_action(Incoming::Other), Action::Wait));
    let event = CdpEvent { method: "M".to_string(), params: Json::Null };
    assert!(matches!(next_action(Incoming::Event(event)), Action::Send(e) if e.method == "M"));
    assert!(matches!(next_action(Incoming::Close), Action::Stop));
    assert!(matches!(next_action(Incoming::ReadError), Action::Stop));
    assert!(matches!(next_action(Incoming::Ended), Action::Stop));
    assert!(matches!(next_action(Incoming::EventsEnded), Action::Stop));
    assert!(matches!(next_action(Incoming::EventNotSent), Action::Stop));
}

#[test]
fn session_ids_are_new_each_time() {
    let a = new_session_id();
    assert!(a.starts_with("session-"));
    assert_eq!(a.len(), 44);
    assert_eq!(&a[16..17], "-");
    assert_ne!(a, new_session_id());
}
