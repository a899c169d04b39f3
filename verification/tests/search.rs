use oxibrowser::search::bing::{
    after_bing, decode_bing_redirect, extract_attr_value, extract_bing_link, extract_bing_snippet,
    find_tag_open, is_captcha, name, parse_bing_html, read_response, search_url, strip_html_tags,
    AfterBing,
};
use oxibrowser::search::engine::{decode_html_entities, url_encode, SearchError};

#[test]
fn test_extract_attr_value_double_quoted() {
    assert_eq!(
        extract_attr_value(r#"href="https://example.com" class="x""#, "href"),
        "https://example.com"
    );
}

#[test]
fn test_extract_attr_value_single_quoted() {
    assert_eq!(
        extract_attr_value(r#"href='https://example.com'"#, "href"),
        "https://example.com"
    );
}

#[test]
fn test_extract_attr_value_not_found() {
    assert_eq!(extract_attr_value("<div>hello</div>", "href"), "");
}

#[test]
fn attribute_without_quotes_ends_at_a_space_or_bracket() {
    assert_eq!(extract_attr_value("href=abc class=x", "href"), "abc");
    assert_eq!(extract_attr_value("href=abc>text", "href"), "abc");
    assert_eq!(extract_attr_value("href=abc/def", "href"), "abc");
    assert_eq!(extract_attr_value("href=", "href"), "");
    assert_eq!(extract_attr_value("href=\"open", "href"), "open");
    assert_eq!(extract_attr_value("href=abc\nclass=x", "href"), "abc");
    assert_eq!(extract_attr_value("href=abc\r\nclass=x", "href"), "abc");
}

#[test]
fn attributes_are_told_apart_by_their_whole_names() {
    assert_eq!(extract_attr_value("data-href=\"a\" href=\"b\"", "href"), "b");
    assert_eq!(extract_attr_value("data-href=\"a\"", "href"), "");
    assert_eq!(extract_attr_value("class=x\nhref='b'", "href"), "b");
    assert_eq!(extract_attr_value("class=\"x\"href=\"y\"", "href"), "y");
    assert_eq!(extract_attr_value("<a/href=y>", "href"), "y");
}

#[test]
fn attributes_inside_quoted_values_are_stepped_over() {
    assert_eq!(extract_attr_value("title=\"a href='b'\" href=\"c\"", "href"), "c");
    assert_eq!(extract_attr_value("title='a href=\"b\"'", "href"), "");
    assert_eq!(extract_attr_value("title='a=\"' href=\"c\"", "href"), "c");
    assert_eq!(extract_attr_value("title=it's href='c'", "href"), "c");
    assert_eq!(extract_attr_value("title=\"open href='c'", "href"), "c");
}

#[test]
fn test_parse_bing_html_simple() {
    let html = r#"
<ol id="b_results">
<li class="b_algo">
<h2><a href="https://example.com">Example Domain</a></h2>
<div class="b_caption"><p>This domain is for use in illustrative examples.</p></div>
</li>
</ol>"#;
    let results = parse_bing_html(html, 10);
    assert_eq!(results.len(), 1);
    assert_eq!(results[0].title, "Example Domain");
    assert_eq!(results[0].url, "https://example.com");
    assert_eq!(
        results[0].snippet,
        "This domain is for use in illustrative examples."
    );
    assert_eq!(results[0].source, "Bing");
}

#[test]
fn test_parse_bing_html_no_results() {
    let html = "<html><body>No results found.</body></html>";
    let results = parse_bing_html(html, 10);
    assert!(results.is_empty());
}

#[test]
fn test_parse_bing_html_max_results() {
    let html = r#"
<li class="b_algo"><h2><a href="https://a.com">A</a></h2><div class="b_caption"><p>First</p></div></li>
<li class="b_algo"><h2><a href="https://b.com">B</a></h2><div class="b_caption"><p>Second</p></div></li>
<li class="b_algo"><h2><a href="https://c.com">C</a></h2><div class="b_caption"><p>Third</p></div></li>
"#;
    let results = parse_bing_html(html, 2);
    assert_eq!(results.len(), 2);
    assert_eq!(results[0].title, "A");
    assert_eq!(results[1].title, "B");
}

#[test]
fn blocks_without_a_link_are_skipped() {
    let html = r#"
<li class="b_algo"><h2>no link</h2></li>
<li class="b_algo"><h2 class="t"><a class="k" href='https://b.com'>B &amp; <strong>C</strong></a></h2><p class="s">one <b>two</b></p></li>"#;
    let results = parse_bing_html(html, 2);
    assert_eq!(results.len(), 1);
    assert_eq!(results[0].title, "B & C");
    assert_eq!(results[0].url, "https://b.com");
    assert_eq!(results[0].snippet, "one two");
    assert!(results[0].extra.is_none());
    assert_eq!(parse_bing_html(html, 0).len(), 0);
}

#[test]
fn test_captcha_detection() {
    let html = "<html>CaptchaChallenge</html>";
    assert!(html.contains("CaptchaChallenge"));
    assert!(is_captcha(html));

    let html2 = "<html> Bing captcha detected</html>";
    assert!(html2.contains(" Bing captcha "));
    assert!(is_captcha(html2));

    assert!(!is_captcha("<html>bing captcha</html>"));
}

#[test]
fn test_decode_bing_redirect_real_payload() {
    // Real-world shape: base64url (unpadded) of the target after `u=a1`.
    let tracking = "https://www.bing.com/ck/a?!&&p=abc&u=a1aHR0cHM6Ly9uYW11Lndpa2kvdy9UT0tJTyglRUMlOTUlODQlRUMlOUQlQjQlRUIlOEYlOEMp&ntb=1";
    assert_eq!(
        decode_bing_redirect(tracking),
        "https://namu.wiki/w/TOKIO(%EC%95%84%EC%9D%B4%EB%8F%8C)"
    );
}

#[test]
fn test_decode_bing_redirect_passthrough() {
    assert_eq!(
        decode_bing_redirect("https://example.com/page"),
        "https://example.com/page"
    );
    // /ck/a without a u=a1 payload — return unchanged.
    assert_eq!(
        decode_bing_redirect("https://www.bing.com/ck/a?x=1"),
        "https://www.bing.com/ck/a?x=1"
    );
}

#[test]
fn redirect_with_a_broken_payload_is_kept() {
    let url = "https://www.bing.com/ck/a?u=a1%%%&x=1";
    assert_eq!(decode_bing_redirect(url), url);
}

#[test]
fn tags_are_stripped_and_the_rest_trimmed() {
    assert_eq!(strip_html_tags("  a <b>c</b> d  "), "a c d");
    assert_eq!(strip_html_tags("a > b < c"), "a  b");
    assert_eq!(strip_html_tags("<i></i>"), "");
}

#[test]
fn tag_openings_are_found() {
    assert_eq!(find_tag_open("x<p>y", "p"), Some(1));
    assert_eq!(find_tag_open("<p class=a>y<p>", "p"), Some(0));
    assert_eq!(find_tag_open("ab<br/>", "br"), Some(2));
    assert_eq!(find_tag_open("<pre>", "p"), None);
    assert_eq!(find_tag_open("\u{e9}<p>", "p"), Some(2));
}

#[test]
fn link_and_snippet_of_a_block() {
    let block = r#"><h2 class=""><a href="https://e.org">T <b>U</b></a></h2><p>not this</p><div class="b_caption"><p class="x">this</p>"#;
    assert_eq!(
        extract_bing_link(block),
        ("T U".to_string(), "https://e.org".to_string())
    );
    assert_eq!(extract_bing_snippet(block), "this");
    assert_eq!(
        extract_bing_link("<h2><a href=\"x\""),
        (String::new(), String::new())
    );
    assert_eq!(extract_bing_snippet("<p>open"), "");
}

#[test]
fn responses_are_read_by_status_and_content() {
    match read_response(404, b"", 5) {
        Err(SearchError::Network(m)) => assert_eq!(m, "Bing returned HTTP 404 Not Found"),
        _ => panic!("expected a network error"),
    }
    match read_response(200, b"<html>CaptchaChallenge</html>", 5) {
        Err(SearchError::Captcha(m)) => assert_eq!(m, "Bing CAPTCHA challenge detected"),
        _ => panic!("expected a captcha"),
    }
    let page = "<li class=\"b_algo\"><h2><a href=\"https://k.kr\">한국</a></h2></li>";
    let results = read_response(200, page.as_bytes(), 5).unwrap();
    assert_eq!(results.len(), 1);
    assert_eq!(results[0].title, "한국");
}

#[test]
fn only_a_captcha_asks_the_other_engine() {
    assert!(matches!(
        after_bing(Err(SearchError::Captcha("c".to_string()))),
        AfterBing::AskDuckDuckGo
    ));
    assert!(matches!(
        after_bing(Err(SearchError::Network("n".to_string()))),
        AfterBing::Answer(Err(SearchError::Network(_)))
    ));
    assert!(matches!(after_bing(Ok(Vec::new())), AfterBing::Answer(Ok(_))));
    assert_eq!(name(), "Bing");
}

#[test]
fn queries_are_percent_encoded() {
    assert_eq!(url_encode("a b&c=é~"), "a%20b%26c%3D%C3%A9~");
    assert_eq!(
        search_url("rust lang"),
        "https://www.bing.com/search?q=rust%20lang"
    );
}

#[test]
fn entities_are_decoded_once() {
    assert_eq!(
        decode_html_entities("&lt;a&gt; &quot;b&quot; &#39;c&apos; &amp;lt; &nbsp;&x; & &"),
        "<a> \"b\" 'c' &lt;  &x; & &"
    );
}
