use std::sync::mpsc::channel;

use oxibrowser::js::arg::{Arg, Kind};
use oxibrowser::js::dom::DomSnapshot;
use oxibrowser::js::runtime::{
    answer_eval, is_runtime_limit, BrowserConfig, CoreError, JsCommand, JsEvalResult, JsResponse, JsRuntime,
    JsRuntimeConfig, ScriptThread, Step,
};
use oxibrowser::js::value::{
    console_line, format_js_error, js_value_to_json, json_to_js_value, Element, JsData,
    JsErrorInfo, ScriptValue, Stringified,
};
use oxibrowser::json::{Json, Number, ObjectBuilder};

fn shown(t: Option<&str>) -> Arg {
    Arg {
        kind: Kind::Undefined,
        shown: t.map(String::from),
    }
}

fn limits(step: &Step) -> (u64, u64, usize, usize) {
    match step {
        Step::Evaluate { limits, .. } => (
            limits.timeout_ms,
            limits.loop_iterations,
            limits.recursion,
            limits.stack_size,
        ),
        _ => panic!("no evaluation"),
    }
}

#[test]
fn default_limits() {
    let c = JsRuntimeConfig::default();
    assert_eq!(c.timeout_ms, 5000);
    assert_eq!(c.max_recursion, 100);
    assert_eq!(c.max_loop_iterations, 100_000);
    assert_eq!(c.max_stack_size, 1024);
    assert_eq!((c.viewport_width, c.viewport_height), (1280, 720));
}

#[test]
fn limits_come_from_the_browser_configuration() {
    let b = BrowserConfig {
        js_timeout_ms: 1,
        js_max_recursion: 2,
        js_max_loop_iterations: 3,
        js_max_stack_size: 4,
        viewport_width: 5,
        viewport_height: 6,
    };
    let c = JsRuntimeConfig::from(&b);
    assert_eq!(c.timeout_ms, 1);
    assert_eq!(c.max_recursion, 2);
    assert_eq!(c.max_loop_iterations, 3);
    assert_eq!(c.max_stack_size, 4);
    assert_eq!((c.viewport_width, c.viewport_height), (5, 6));
}

#[test]
fn results_are_made() {
    assert!(JsEvalResult::ok(Json::Null).is_ok());
    assert!(JsEvalResult::void().value.is_none());
    let e = JsEvalResult::error("bad".to_string());
    assert!(!e.is_ok());
    let t = JsEvalResult::timeout(250);
    assert!(t.timed_out);
    assert_eq!(
        t.exception,
        Some("JS execution timed out after 250ms — context was reset, previous state lost".to_string())
    );
}

#[test]
fn evaluations_use_the_configured_limits() {
    let mut thread = ScriptThread::new();
    let rt = JsRuntime::with_config(JsRuntimeConfig {
        timeout_ms: 1000,
        max_recursion: 10,
        max_loop_iterations: 50,
        max_stack_size: 256,
        viewport_width: 1280,
        viewport_height: 720,
    });
    let step = thread.accept(rt.evaluate("1"));
    assert_eq!(limits(&step), (1000, 50, 10, 256));
    assert!(step.answer().is_none());
    assert!(step.goes_on());
    let step = thread.accept(rt.evaluate_with_timeout("1", Some(7)));
    assert_eq!(limits(&step).0, 7);
    let step = thread.accept(JsCommand::Eval {
        expression: "1".to_string(),
        timeout_ms: None,
        max_loop_iterations: None,
        max_recursion: None,
        max_stack_size: None,
    });
    assert_eq!(limits(&step), (5000, 100_000, 100, 1024));
}

#[test]
fn an_evaluation_within_its_time_gives_value_and_console() {
    let mut thread = ScriptThread::new();
    let rt = JsRuntime::new();
    thread.log("old".to_string());
    thread.accept(rt.evaluate("1"));
    thread.log("new".to_string());
    let console = thread.end_eval(5000, 5000).ok().unwrap();
    thread.log("later".to_string());
    let response = answer_eval(Ok(Json::whole(14)), console);
    let r = rt.interpret(response, None).ok().unwrap();
    assert_eq!(r.value, Some(Json::whole(14)));
    assert_eq!(r.console_output, vec!["new".to_string()]);
    assert!(!r.timed_out);
    assert_eq!(thread.console_output(), vec!["new".to_string(), "later".to_string()]);
    thread.clear_console();
    assert!(thread.console_output().is_empty());
}

#[test]
fn an_exception_is_a_result() {
    let mut thread = ScriptThread::new();
    let rt = JsRuntime::new();
    let console = thread.end_eval(5000, 1).ok().unwrap();
    let response = answer_eval(Err("type: no".to_string()), console);
    let r = rt.interpret(response, None).ok().unwrap();
    assert_eq!(r.exception, Some("type: no".to_string()));
    assert_eq!(r.value, None);
}

#[test]
fn too_long_an_evaluation_is_a_timeout_and_resets() {
    let mut thread = ScriptThread::new();
    let rt = JsRuntime::new();
    thread.accept(rt.set_page_url("http://a/"));
    assert!(thread.local_storage.is_some());
    thread.log("shown".to_string());
    let response = thread.end_eval(10, 11).err().unwrap();
    assert!(thread.local_storage.is_none());
    assert!(thread.session_storage.is_none());
    match &response {
        JsResponse::EvalResult { exception, timed_out, console_output, .. } => {
            assert!(timed_out);
            assert_eq!(*console_output, vec!["shown".to_string()]);
            assert_eq!(
                exception.as_deref(),
                Some("JS execution timed out after 11ms — context was reset, previous state lost")
            );
        }
        JsResponse::Done => panic!("no result"),
    }
    assert_eq!(
        rt.interpret(response, Some(10)).err(),
        Some(CoreError::JsTimeout(10))
    );
    assert!(rt.interpret(JsResponse::Done, None).ok().unwrap().value.is_none());
}

#[test]
fn globals_are_kept_and_defined() {
    let mut thread = ScriptThread::new();
    let mut rt = JsRuntime::new();
    let value = ObjectBuilder::new().with_text("name", "test").build();
    let cmd = rt.set_global("cfg", value.duplicate());
    match thread.accept(cmd) {
        Step::DefineGlobal { name, value } => {
            assert_eq!(name, "cfg");
            match value {
                ScriptValue::Object(ps) => assert_eq!(ps[0].name, "name"),
                _ => panic!("no object"),
            }
        }
        _ => panic!("no definition"),
    }
    assert_eq!(rt.get_global("cfg"), Some(value));
    assert_eq!(rt.get_global("other"), None);
    rt.set_global("cfg", Json::Null);
    assert_eq!(rt.get_global("cfg"), Some(Json::Null));
}

#[test]
fn snapshots_replace_each_other_and_drop_changes() {
    let mut thread = ScriptThread::new();
    let rt = JsRuntime::new();
    let snapshot = |title: &str| DomSnapshot {
        nodes: std::collections::HashMap::new(),
        title: title.to_string(),
        url: "http://a/".to_string(),
        root_id: 0,
        body_id: None,
        head_id: None,
    };
    match thread.accept(rt.set_dom_snapshot(Some(snapshot("Page 1")))) {
        Step::DefineDomGlobals { title, url } => {
            assert_eq!(title, "Page 1");
            assert_eq!(url, "http://a/");
        }
        _ => panic!("no globals"),
    }
    thread.document.click(1);
    assert_eq!(thread.document.mutations.len(), 1);
    thread.accept(rt.set_dom_snapshot(Some(snapshot("Page 2"))));
    assert_eq!(thread.document.title(), "Page 2");
    assert!(thread.drain_mutations().is_empty());
    assert!(matches!(thread.accept(rt.set_dom_snapshot(None)), Step::Acknowledge));
}

#[test]
fn channels_are_set_and_shutdown_stops() {
    let mut thread = ScriptThread::new();
    let rt = JsRuntime::new();
    assert!(matches!(thread.accept(rt.set_fetch_channel(channel().0)), Step::Acknowledge));
    assert!(matches!(
        thread.accept(rt.set_local_storage_channel(channel().0)),
        Step::Acknowledge
    ));
    assert!(matches!(thread.accept(rt.set_history_channel(channel().0)), Step::Acknowledge));
    assert!(thread.fetch_tx.is_some());
    assert!(thread.local_storage_tx.is_some());
    assert!(thread.history_tx.is_some());
    match thread.accept(rt.set_page_url("https://example.com/x")) {
        Step::DefineWindow { location } => assert_eq!(location.pathname, "/x"),
        _ => panic!("no window"),
    }
    let stop = thread.accept(JsCommand::Shutdown);
    assert!(!stop.goes_on());
    assert!(matches!(stop.answer(), Some(JsResponse::Done)));
}

#[test]
fn limit_messages_are_known() {
    assert!(is_runtime_limit("runtimelimit: Maximum loop iteration limit 50 exceeded"));
    assert!(is_runtime_limit("exceeded the maximum call stack size"));
    assert!(is_runtime_limit("recursion limit"));
    assert!(!is_runtime_limit("type error"));
}

#[test]
fn values_become_json() {
    assert_eq!(js_value_to_json(&JsData::Undefined), Json::Null);
    assert_eq!(js_value_to_json(&JsData::Integer(14)), Json::whole(14));
    assert_eq!(
        js_value_to_json(&JsData::Integer(-1)),
        Json::Number(Number::NegInt(-1))
    );
    let half = 0.5f64.to_bits();
    assert_eq!(
        js_value_to_json(&JsData::Rational(half)),
        Json::Number(Number::Float(half))
    );
    assert_eq!(js_value_to_json(&JsData::Rational(f64::NAN.to_bits())), Json::Null);
    assert_eq!(js_value_to_json(&JsData::Symbol), Json::text("[symbol]"));
    assert_eq!(
        js_value_to_json(&JsData::BigInt(Some("12".to_string()))),
        Json::text("12")
    );
    assert_eq!(js_value_to_json(&JsData::BigInt(None)), Json::text("0n"));
    let array = JsData::Array(vec![
        Element { value: Some(JsData::Boolean(true)) },
        Element { value: None },
    ]);
    assert_eq!(
        js_value_to_json(&array),
        Json::array(vec![Json::Bool(true), Json::Null])
    );
}

#[test]
fn objects_become_json_as_far_as_they_can() {
    let object = |text: Option<&str>, parsed: Option<Json>, shown: Option<&str>| JsData::Object {
        stringified: text.map(|t| Stringified { text: t.to_string(), parsed }),
        shown: shown.map(String::from),
    };
    assert_eq!(
        js_value_to_json(&object(Some("{}"), Some(Json::empty_object()), None)),
        Json::empty_object()
    );
    assert_eq!(js_value_to_json(&object(Some("odd"), None, None)), Json::text("odd"));
    assert_eq!(
        js_value_to_json(&object(None, None, Some("function f() {}"))),
        Json::text("function f() {}")
    );
    assert_eq!(
        js_value_to_json(&object(None, None, Some("[object Object]"))),
        Json::empty_object()
    );
    assert_eq!(js_value_to_json(&object(None, None, None)), Json::empty_object());
}

#[test]
fn json_becomes_values() {
    assert!(matches!(
        json_to_js_value(&Json::Number(Number::NegInt(-3))),
        ScriptValue::Whole(-3)
    ));
    assert!(matches!(
        json_to_js_value(&Json::whole(u64::MAX)),
        ScriptValue::Large(u64::MAX)
    ));
    match json_to_js_value(&Json::array(vec![Json::Bool(false), Json::text("x")])) {
        ScriptValue::Array(v) => {
            assert!(matches!(v[0], ScriptValue::Boolean(false)));
            assert!(matches!(&v[1], ScriptValue::Text(t) if t == "x"));
        }
        _ => panic!("no array"),
    }
}

#[test]
fn errors_are_formatted() {
    let native = |kind: &str, message: &str| JsErrorInfo::Native {
        kind: kind.to_string(),
        message: message.to_string(),
    };
    assert_eq!(format_js_error(&native("Type", "no")), "type: no");
    assert_eq!(format_js_error(&native("Syntax", "")), "syntax");
    let thrown = |shown: Option<&str>, m: Option<&str>, n: Option<&str>| JsErrorInfo::Thrown {
        shown: shown.map(String::from),
        own_message: m.map(String::from),
        own_name: n.map(String::from),
        printed: "Object".to_string(),
    };
    assert_eq!(format_js_error(&thrown(Some("Error: oops"), None, None)), "Error: oops");
    assert_eq!(
        format_js_error(&thrown(Some("undefined"), Some("m"), Some("N"))),
        "N: m"
    );
    assert_eq!(format_js_error(&thrown(None, Some("m"), None)), "m");
    assert_eq!(format_js_error(&thrown(Some(""), Some(""), None)), "Error: Object");
    assert_eq!(format_js_error(&JsErrorInfo::Unknown), "Unknown JavaScript error");
}

#[test]
fn console_lines_join_their_arguments() {
    assert_eq!(
        console_line(&[shown(Some("a")), shown(Some("1")), shown(None)]),
        "a 1 undefined"
    );
    assert_eq!(console_line(&[]), "");
}

#[test]
fn each_command_gets_one_response_until_the_shutdown() {
    let mut thread = ScriptThread::new();
    let rt = JsRuntime::new();
    let commands = vec![
        rt.set_page_url("http://a/"),
        rt.evaluate("1"),
        rt.set_dom_snapshot(None),
        JsCommand::Shutdown,
        rt.evaluate("2"),
    ];
    let mut responses = Vec::new();
    for command in commands {
        let step = thread.accept(command);
        responses.push(match step.answer() {
            Some(response) => response,
            None => match thread.end_eval(5000, 1) {
                Ok(console) => answer_eval(Ok(Json::Null), console),
                Err(response) => response,
            },
        });
        if !step.goes_on() {
            break;
        }
    }
    let kinds: Vec<bool> =
        responses.iter().map(|r| matches!(r, JsResponse::EvalResult { .. })).collect();
    assert_eq!(kinds, vec![false, true, false, false]);
}
