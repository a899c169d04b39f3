use oxibrowser::cdp::fetch::{
    emit_request_paused, handle, matches_patterns, parse_fetch_pattern, FetchPattern, Interception,
};
use oxibrowser::json::{Json, Number, ObjectBuilder};

fn run(i: &mut Interception<u8>, method: &str, params: Option<Json>) -> Result<Option<Json>, (i32, String)> {
    handle(method, params.as_ref(), i).map_err(|e| (e.code, e.message))
}

fn request(id: &str) -> Json {
    ObjectBuilder::new().with_text("requestId", id).build()
}

#[test]
fn test_fetch_pattern_matches_all() {
    let pattern = FetchPattern::default();
    assert!(pattern.matches_url("http://example.com"));
    assert!(pattern.matches_url("https://anything.example.org/path"));
    assert!(pattern.matches_url("data:text/html,<h1>Hi</h1>"));
}

#[test]
fn test_fetch_pattern_matches_prefix() {
    let pattern = FetchPattern {
        url_pattern: "http://example.com/*".to_string(),
        ..Default::default()
    };
    assert!(pattern.matches_url("http://example.com/"));
    assert!(pattern.matches_url("http://example.com/path"));
    assert!(!pattern.matches_url("http://other.com/"));
}

#[test]
fn test_fetch_pattern_matches_suffix() {
    let pattern = FetchPattern {
        url_pattern: "*.example.com".to_string(),
        ..Default::default()
    };
    assert!(pattern.matches_url("http://foo.example.com"));
    assert!(pattern.matches_url("http://bar.example.com/path"));
    assert!(!pattern.matches_url("http://example.com"));
}

#[test]
fn test_fetch_pattern_matches_substring() {
    let pattern = FetchPattern {
        url_pattern: "*api*".to_string(),
        ..Default::default()
    };
    assert!(pattern.matches_url("http://example.com/api/v1"));
    assert!(pattern.matches_url("https://my-api.example.com"));
    assert!(!pattern.matches_url("http://example.com/rest"));
}

#[test]
fn test_fetch_pattern_exact_match() {
    let pattern = FetchPattern {
        url_pattern: "http://example.com/path".to_string(),
        ..Default::default()
    };
    assert!(pattern.matches_url("http://example.com/path"));
    assert!(!pattern.matches_url("http://example.com/other"));
}

#[test]
fn test_matches_patterns() {
    let patterns = vec![
        FetchPattern {
            url_pattern: "*.example.com".to_string(),
            ..Default::default()
        },
        FetchPattern {
            url_pattern: "http://api.site.com/*".to_string(),
            ..Default::default()
        },
    ];
    assert!(matches_patterns("http://foo.example.com", &patterns));
    assert!(matches_patterns("http://api.site.com/data", &patterns));
    assert!(!matches_patterns("http://other.com/", &patterns));
}

#[test]
fn a_lone_star_and_two_stars_match_everything() {
    for p in ["*", "**"] {
        let pattern = FetchPattern {
            url_pattern: p.to_string(),
            ..Default::default()
        };
        assert!(pattern.matches_url(""));
        assert!(pattern.matches_url("x"));
    }
    assert!(!matches_patterns("x", &[]));
}

#[test]
fn patterns_are_parsed_from_objects_only() {
    let v = ObjectBuilder::new()
        .with_text("urlPattern", "a*")
        .with_text("resourceType", "Script")
        .build();
    let p = parse_fetch_pattern(&v).unwrap();
    assert_eq!(p.url_pattern, "a*");
    assert_eq!(p.resource_type, Some("Script".to_string()));
    assert_eq!(p.request_stage, None);
    assert_eq!(
        parse_fetch_pattern(&Json::empty_object()).unwrap().url_pattern,
        "*"
    );
    assert!(parse_fetch_pattern(&Json::Null).is_none());
}

#[test]
fn enabling_without_patterns_intercepts_everything_until_disabled() {
    let mut i = Interception::new();
    assert!(!i.intercepts("http://a"));
    assert_eq!(run(&mut i, "enable", None), Ok(Some(Json::empty_object())));
    assert!(i.intercepts("http://a"));
    assert_eq!(run(&mut i, "disable", None), Ok(Some(Json::empty_object())));
    assert!(!i.intercepts("http://a"));
    assert_eq!(i.patterns.len(), 0);
}

#[test]
fn enabling_with_patterns_takes_those_that_are_objects() {
    let mut i = Interception::new();
    let items = Json::array(vec![
        Json::Null,
        ObjectBuilder::new().with_text("urlPattern", "http://a/*").build(),
    ]);
    let params = ObjectBuilder::new().with("patterns", items).build();
    assert!(run(&mut i, "enable", Some(params)).is_ok());
    assert_eq!(i.patterns.len(), 1);
    assert!(i.intercepts("http://a/x"));
    assert!(!i.intercepts("http://b/x"));
}

#[test]
fn continuing_and_failing_release_a_request() {
    for method in ["continueRequest", "failRequest", "continueResponse"] {
        let mut i = Interception::new();
        i.paused.insert("r1".to_string(), 1);
        i.paused.insert("r2".to_string(), 2);
        assert_eq!(
            run(&mut i, method, Some(request("r1"))),
            Ok(Some(Json::empty_object()))
        );
        assert!(!i.paused.contains_key("r1"));
        assert!(i.paused.contains_key("r2"));
        assert_eq!(
            run(&mut i, method, None),
            Err((-32602, format!("{} requires parameters", method)))
        );
    }
}

#[test]
fn a_response_without_an_id_releases_nothing() {
    let mut i = Interception::new();
    i.paused.insert(String::new(), 1);
    assert!(run(&mut i, "continueResponse", Some(Json::empty_object())).is_ok());
    assert!(i.paused.contains_key(""));
    assert!(run(&mut i, "continueRequest", Some(Json::empty_object())).is_ok());
    assert!(!i.paused.contains_key(""));
}

#[test]
fn fulfilling_keeps_the_response() {
    let mut i = Interception::new();
    i.paused.insert("r1".to_string(), 1);
    let header = |n: &str, v: &str| {
        ObjectBuilder::new()
            .with_text("name", n)
            .with_text("value", v)
            .build()
    };
    let params = ObjectBuilder::new()
        .with_text("requestId", "r1")
        .with("statusCode", Json::Number(Number::NegInt(-1)))
        .with_text("body", "hello")
        .with(
            "responseHeaders",
            Json::array(vec![header("a", "1"), Json::Null, header("b", "2"), header("a", "3")]),
        )
        .with("base64Encoded", Json::Bool(true))
        .build();
    let reply = run(&mut i, "fulfillRequest", Some(params)).unwrap().unwrap();
    let headers = ObjectBuilder::new().with_text("a", "3").with_text("b", "2").build();
    let want = ObjectBuilder::new()
        .with("responseCode", Json::whole(65535))
        .with_text("responsePhrase", "OK")
        .with("responseHeaders", headers)
        .with("binary", Json::Bool(true))
        .build();
    assert_eq!(reply, want);
    assert!(!i.paused.contains_key("r1"));
    let mock = i.mocks.get("r1").unwrap();
    assert_eq!(mock.body, "hello");
    assert_eq!(mock.status, 65535);
    assert!(mock.base64_encoded);
    assert_eq!(mock.headers.get("a").unwrap(), "3");
}

#[test]
fn fulfilling_has_defaults_and_needs_parameters() {
    let mut i = Interception::new();
    assert_eq!(
        run(&mut i, "fulfillRequest", None),
        Err((-32602, "fulfillRequest requires parameters".to_string()))
    );
    assert!(run(&mut i, "fulfillRequest", Some(request("q"))).is_ok());
    assert_eq!(i.mocks.get("q").unwrap().status, 200);
    assert_eq!(i.mocks.get("q").unwrap().body, "");
}

#[test]
fn other_fetch_commands() {
    let mut i = Interception::new();
    assert_eq!(
        run(&mut i, "getResponseBody", None).unwrap().unwrap(),
        ObjectBuilder::new()
            .with_text("body", "")
            .with("base64Encoded", Json::Bool(false))
            .build()
    );
    assert_eq!(
        run(&mut i, "takeResponseBodyAsStream", None).unwrap().unwrap(),
        ObjectBuilder::new().with("streamId", Json::whole(0)).build()
    );
    assert_eq!(
        run(&mut i, "restoreResponseBodyAsStream", None),
        Ok(Some(Json::empty_object()))
    );
    assert_eq!(
        run(&mut i, "nothing", None),
        Err((-32601, "Fetch.nothing not implemented".to_string()))
    );
}

#[test]
fn a_paused_request_is_told() {
    let e = emit_request_paused(
        "r1",
        "http://a",
        "GET",
        &[("k".to_string(), "v".to_string())],
        "Document",
    );
    assert_eq!(e.method, "Fetch.requestPaused");
    assert_eq!(e.params.get_text("requestId").unwrap(), "r1");
    let request = e.params.get("request").unwrap();
    assert_eq!(request.get_text("url").unwrap(), "http://a");
    assert_eq!(request.get("headers").unwrap().get_text("k").unwrap(), "v");
    assert_eq!(request.get("postData"), Some(&Json::Null));
    assert_eq!(e.params.get_bool("networkIntercepted"), Some(true));
}
