use std::sync::mpsc::channel;

use oxibrowser::js::arg::{Arg, Kind};
use oxibrowser::js::encoding;
use oxibrowser::js::fetch_api::{
    fetch_reply, fetch_request, json_code, text_code, Exchange, FetchOptions, FetchReply,
    FetchResponseMsg,
};
use oxibrowser::js::history;
use oxibrowser::js::history::HistoryCommandType;
use oxibrowser::js::listeners::{Event, Listeners};
use oxibrowser::js::observer::MutationObserver;
use oxibrowser::js::search_params::UrlSearchParams;
use oxibrowser::js::storage::{LocalStorageMsg, StorageArea};
use oxibrowser::js::timers::{clear_timer, rearm, set_interval, set_timeout, Drain, TimerRequest};
use oxibrowser::js::weburl::{location, url_record};
use oxibrowser::js::window::{user_agent, window_globals};
use oxibrowser::js::xhr::{Callback, Xhr, DONE, HEADERS_RECEIVED, OPENED, UNSENT};

fn text(t: &str) -> Arg {
    Arg {
        kind: Kind::Text(t.to_string()),
        shown: Some(t.to_string()),
    }
}

fn number(n: f64) -> Arg {
    Arg {
        kind: Kind::Number(n.to_bits()),
        shown: Some(n.to_string()),
    }
}

fn function() -> Arg {
    Arg {
        kind: Kind::Object {
            callable: true,
            node_id: None,
        },
        shown: Some("function".to_string()),
    }
}

fn response(status: u16, error: Option<&str>) -> FetchResponseMsg {
    FetchResponseMsg {
        status,
        status_text: "OK".to_string(),
        url: "http://a/".to_string(),
        headers: vec![
            ("Content-Type".to_string(), "text/html; charset=utf-8".to_string()),
            ("X-Two".to_string(), " spaced ".to_string()),
            ("content-type".to_string(), "second".to_string()),
        ],
        body: "say \"hi\"".to_string(),
        error: error.map(String::from),
    }
}

#[test]
fn storage_keeps_what_was_set_and_tells_the_session() {
    let mut area = StorageArea::new();
    let mut copy = StorageArea::new();
    let mut told = vec![
        area.set_item(&[text("k"), text("v")]),
        area.set_item(&[text("n"), number(1.5)]),
        area.set_item(&[text("lost")]),
        area.remove_item(&[text("k")]),
        area.remove_item(&[]),
    ];
    assert_eq!(
        told[0],
        Some(LocalStorageMsg::SetItem("k".to_string(), "v".to_string()))
    );
    assert_eq!(told[2], None);
    assert_eq!(told[3], Some(LocalStorageMsg::RemoveItem("k".to_string())));
    assert_eq!(told[4], None);
    for m in told.drain(..) {
        if let Some(m) = m {
            copy.apply(m);
        }
    }
    for a in [&area, &copy] {
        assert_eq!(a.get_item(&[text("k")]), None);
        assert_eq!(a.get_item(&[text("n")]), Some("1.5".to_string()));
        assert_eq!(a.len(), 1);
        assert_eq!(a.key(Some(0)), Some("n".to_string()));
        assert_eq!(a.key(Some(1)), None);
        assert_eq!(a.key(None), None);
    }
    assert_eq!(area.clear(), Some(LocalStorageMsg::Clear));
    assert_eq!(area.len(), 0);
}

#[test]
fn history_commands_carry_their_arguments() {
    let args = [text("state"), text("title"), text("/p")];
    assert_eq!(
        history::push_state(&args),
        HistoryCommandType::PushState { url: "/p".to_string() }
    );
    assert_eq!(
        history::replace_state(&args[..2]),
        HistoryCommandType::ReplaceState { url: String::new() }
    );
    assert_eq!(history::back(), HistoryCommandType::Back);
    assert_eq!(history::forward(), HistoryCommandType::Forward);
    assert_eq!(history::go(&[number(-2.7)]), HistoryCommandType::Go { delta: -2 });
    assert_eq!(history::go(&[text("3")]), HistoryCommandType::Go { delta: 0 });
}

#[test]
fn search_params_are_parsed_and_changed() {
    let mut p = UrlSearchParams::parse("a=1&b=2&a=3&flag&&c=x=y");
    assert_eq!(p.get(&[text("a")]), "1");
    assert_eq!(p.get(&[text("c")]), "x=y");
    assert_eq!(p.get(&[text("none")]), "");
    assert!(p.has(&[text("flag")]));
    assert!(!p.has(&[text("")]));
    assert_eq!(p.to_text(), "a=1&a=3&b=2&c=x=y");
    p.set(&[text("a"), text("9")]);
    p.append(&[text("b"), text("4")]);
    p.delete(&[text("c")]);
    assert_eq!(p.to_text(), "a=9&b=2&b=4");
    assert_eq!(p.for_each().len(), 3);
    assert_eq!(UrlSearchParams::parse("?q=1").get(&[text("?q")]), "1");
    assert_eq!(UrlSearchParams::parse("").to_text(), "");
}

#[test]
fn urls_have_their_parts() {
    let u = url_record("https://me:pw@Example.com:8080/a/b?q=1#top");
    assert_eq!(u.href, "https://me:pw@example.com:8080/a/b?q=1#top");
    assert_eq!(u.origin, "https://example.com:8080");
    assert_eq!(u.protocol, "https:");
    assert_eq!(u.host, "example.com");
    assert_eq!(u.hostname, "example.com");
    assert_eq!(u.pathname, "/a/b");
    assert_eq!(u.search, "?q=1");
    assert_eq!(u.hash, "#top");
    assert_eq!(u.port, "8080");
    assert_eq!(u.username, "me");
    assert_eq!(u.password, "pw");
}

#[test]
fn what_is_no_url_is_its_own_origin() {
    let u = url_record("not a url");
    assert_eq!(u.href, "not a url");
    assert_eq!(u.origin, "not a url");
    assert_eq!(u.protocol, "");
    assert_eq!(u.search, "");
}

#[test]
fn locations_keep_the_url_as_it_was_given() {
    let l = location("HTTP://Example.com/x");
    assert_eq!(l.href, "HTTP://Example.com/x");
    assert_eq!(l.origin, "http://example.com");
    assert_eq!(l.protocol, "http:");
    assert_eq!(l.hostname, "example.com");
    assert_eq!(l.pathname, "/x");
    let none = location("");
    assert_eq!(none.origin, "");
    assert_eq!(none.protocol, "");
}

#[test]
fn windows_show_viewport_and_navigator() {
    let w = window_globals((800, 600), "https://example.com/", user_agent());
    assert_eq!((w.inner_width, w.inner_height), (800, 600));
    assert_eq!((w.outer_width, w.outer_height), (800, 600));
    assert_eq!(w.navigator.user_agent, "OxiBrowser/0.2");
    assert_eq!(w.navigator.languages, vec!["en-US", "en"]);
    assert_eq!(w.navigator.vendor, "Google Inc.");
    assert_eq!(w.location.hostname, "example.com");
    assert_eq!(w.history_length, 1);
    assert!(!w.closed);
}

#[test]
fn fetch_requests_take_method_and_body_from_the_options() {
    let (tx, _rx) = channel();
    let r = fetch_request(
        &[text("http://a")],
        Some(FetchOptions {
            method: Some("post".to_string()),
            body: Some("b".to_string()),
        }),
        tx.clone(),
    );
    assert_eq!(r.url, "http://a");
    assert_eq!(r.method, "POST");
    assert_eq!(r.body, Some("b".to_string()));
    assert!(r.headers.is_empty());
    let r = fetch_request(&[number(1.0)], None, tx);
    assert_eq!((r.url.as_str(), r.method.as_str()), ("", "GET"));
    assert_eq!(r.body, None);
}

#[test]
fn fetch_replies_reject_unless_a_response_came() {
    let rejected = |e: Exchange| match fetch_reply(e) {
        FetchReply::Reject(code) => code,
        FetchReply::Resolve(_) => panic!("resolved"),
    };
    assert_eq!(
        rejected(Exchange::NoChannel),
        "Promise.reject(new Error('fetch() is not available — channel not set'))"
    );
    assert_eq!(
        rejected(Exchange::SendFailed("gone".to_string())),
        "Promise.reject(new Error('fetch channel error: gone'))"
    );
    assert_eq!(
        rejected(Exchange::Closed),
        "Promise.reject(new Error('fetch channel closed'))"
    );
    assert_eq!(
        rejected(Exchange::Response(response(200, Some("no route")))),
        "Promise.reject(new Error('no route'))"
    );
    for (status, ok) in [(200, true), (399, true), (400, false)] {
        match fetch_reply(Exchange::Response(response(status, None))) {
            FetchReply::Resolve(o) => {
                assert_eq!(o.status, status);
                assert_eq!(o.ok, ok);
                assert_eq!(o.response_type, "basic");
                assert!(!o.body_used);
            }
            FetchReply::Reject(_) => panic!("rejected"),
        }
    }
}

#[test]
fn response_bodies_become_code() {
    assert_eq!(text_code("say \"hi\"\n"), "Promise.resolve(\"say \\\"hi\\\"\\n\")");
    assert_eq!(
        text_code("\u{8}\t\u{c}\r\u{1}\u{1f}\\\u{7f}\u{e9}"),
        "Promise.resolve(\"\\b\\t\\f\\r\\u0001\\u001f\\\\\u{7f}\u{e9}\")"
    );
    assert_eq!(json_code("{}"), "Promise.resolve(JSON.parse(\"{}\"))");
}

#[test]
fn requests_go_through_their_states() {
    let (tx, _rx) = channel();
    let mut x = Xhr::new();
    assert_eq!(x.ready_state, UNSENT);
    x.open(&[text("PUT"), text("http://a")]);
    assert_eq!(x.ready_state, OPENED);
    assert!(x.asynchronous);
    let r = x.send(&[text("data")], tx.clone());
    assert_eq!((r.method.as_str(), r.url.as_str()), ("PUT", "http://a"));
    assert_eq!(r.body, Some("data".to_string()));
    assert_eq!(x.ready_state, HEADERS_RECEIVED);
    assert_eq!(
        x.receive(Exchange::Response(response(201, None))),
        vec![Callback::OnLoad, Callback::OnReadyStateChange]
    );
    assert_eq!(x.ready_state, DONE);
    assert_eq!(x.status, 201);
    assert_eq!(x.response_text, "say \"hi\"");
    x.abort();
    assert_eq!(x.ready_state, UNSENT);
    assert_eq!(x.status, 201);
}

#[test]
fn failed_requests_call_other_callbacks_or_none() {
    let (tx, _rx) = channel();
    let mut x = Xhr::new();
    x.send(&[number(1.0)], tx);
    assert!(x.receive(Exchange::NoChannel).is_empty());
    assert_eq!(x.ready_state, HEADERS_RECEIVED);
    assert!(x.receive(Exchange::SendFailed("gone".to_string())).is_empty());
    assert_eq!(x.ready_state, HEADERS_RECEIVED);
    assert_eq!(
        x.receive(Exchange::Response(response(500, Some("bad")))),
        vec![Callback::OnError, Callback::OnReadyStateChange]
    );
    assert!(x.receive(Exchange::Closed).is_empty());
    assert_eq!((x.ready_state, x.status), (DONE, 0));
}

#[test]
fn response_headers_are_read_back() {
    let mut x = Xhr::new();
    assert_eq!(x.get_response_header(&[text("any")]), None);
    x.receive(Exchange::Response(response(200, None)));
    assert_eq!(
        x.response_headers,
        "Content-Type: text/html; charset=utf-8\r\nX-Two:  spaced \r\ncontent-type: second\r\n"
    );
    assert_eq!(
        x.get_response_header(&[text("CONTENT-TYPE")]),
        Some("text/html; charset=utf-8".to_string())
    );
    assert_eq!(x.get_response_header(&[text("x-two")]), Some("spaced".to_string()));
    assert_eq!(x.get_response_header(&[text("x-three")]), None);
}

#[test]
fn listeners_are_called_in_order_until_removed() {
    let mut l = Listeners::new();
    l.add(&[text("click"), function()], 1);
    l.add(&[text("click"), text("no function")], 2);
    l.add(&[text("click"), function()], 3);
    l.add(&[text("click")], 4);
    l.add(&[text("load"), function()], 5);
    assert_eq!(l.dispatch(&Event::Text("click".to_string())), vec![1, 3]);
    assert_eq!(
        l.dispatch(&Event::Object { event_type: Some("load".to_string()) }),
        vec![5]
    );
    assert!(l.dispatch(&Event::Object { event_type: None }).is_empty());
    assert!(l.dispatch(&Event::Other).is_empty());
    l.add(&[text("click"), function()], 1);
    l.remove(&[text("click"), function()], 1);
    assert_eq!(l.dispatch(&Event::Text("click".to_string())), vec![3]);
    l.remove(&[text("scroll"), function()], 3);
    l.remove(&[text("click"), function()], 5);
    assert_eq!(l.dispatch(&Event::Text("click".to_string())), vec![3]);
    l.remove(&[text("click"), function()], 3);
    assert!(l.dispatch(&Event::Text("click".to_string())).is_empty());
    assert_eq!(l.dispatch(&Event::Text("load".to_string())), vec![5]);
}

#[test]
fn observers_hand_out_their_records_once() {
    let mut o = MutationObserver::new();
    assert!(!o.observing);
    o.observe();
    o.records.push(1);
    assert!(o.observing);
    assert_eq!(o.take_records(), vec![1]);
    assert!(o.take_records().is_empty());
    o.records.push(2);
    o.disconnect();
    assert!(!o.observing);
    assert!(o.records.is_empty());
}

#[test]
fn timers_are_asked_for() {
    assert_eq!(
        set_timeout(&[function(), number(12.9)]),
        Some(TimerRequest { delay_ms: 12, is_interval: false, interval_ms: None })
    );
    assert_eq!(
        set_interval(&[function(), number(-3.0), text("arg")]),
        Some(TimerRequest { delay_ms: 0, is_interval: true, interval_ms: Some(0) })
    );
    assert_eq!(set_timeout(&[text("code"), number(1.0)]), None);
    assert_eq!(set_timeout(&[]), None);
    assert_eq!(clear_timer(&[number(7.0)]), Some(7));
    assert_eq!(clear_timer(&[text("7")]), None);
    assert_eq!(rearm(true, Some(0)), Some(1));
    assert_eq!(rearm(true, Some(20)), Some(20));
    assert_eq!(rearm(true, None), Some(1));
    assert_eq!(rearm(false, Some(20)), None);
}

#[test]
fn draining_ends_after_a_hundred_and_one_batches() {
    let mut d = Drain::new();
    let mut n = 0;
    while d.goes_on() && d.runs(1) {
        n += 1;
    }
    assert_eq!(n, 101);
    let mut idle = Drain::new();
    assert!(!idle.runs(0));
    assert_eq!(idle.batches, 0);
}

#[test]
fn encodings_as_scripts_call_them() {
    assert_eq!(encoding::btoa(&[text("hi")]), "aGk=");
    assert_eq!(encoding::atob(&[text("aGk=")]), Some("hi".to_string()));
    assert_eq!(encoding::atob(&[text("*")]), None);
    assert_eq!(encoding::encode(&[text("é")]), vec![0xc3, 0xa9]);
    let elements = [Some(195.0f64.to_bits()), None, Some(169.4f64.to_bits())];
    assert_eq!(encoding::decode(Some(&elements)), "é");
    assert_eq!(encoding::decode(None), "");
    assert_eq!(encoding::decoder_encoding(&[]), "utf-8");
    assert_eq!(encoding::decoder_encoding(&[text("latin1")]), "latin1");
    assert_eq!(encoding::random_count(70000), 65536);
    assert_eq!(encoding::random_count(3), 3);
    assert_eq!(encoding::random_byte(999_999_999, 2), (999_999_999u32 as u8).wrapping_add(2));
}

#[test]
fn parameters_written_as_text_are_read_back() {
    let mut params = UrlSearchParams::parse("a=1&b=2&a=3");
    params.append(&[text("c"), text("x=y")]);
    let again = UrlSearchParams::parse(&params.to_text());
    assert_eq!(again.get(&[text("a")]), "1");
    assert_eq!(again.get(&[text("b")]), "2");
    assert_eq!(again.get(&[text("c")]), "x=y");
    assert_eq!(again.for_each().len(), 4);
    assert_eq!(UrlSearchParams::parse("").to_text(), "");
}

#[test]
fn parameters_hand_out_names_values_and_both() {
    let params = UrlSearchParams::parse("a=1&b&a=3");
    assert_eq!(params.keys(), vec!["a", "a"]);
    assert_eq!(params.values(), vec!["1", "3"]);
    let pair = |k: &str, v: &str| (k.to_string(), v.to_string());
    assert_eq!(params.entries(), vec![pair("a", "1"), pair("a", "3")]);
    assert!(UrlSearchParams::parse("").keys().is_empty());
}
