//! The Bing search engine: reading results out of its HTML page.
//!
//! A result page holds `<li class="b_algo">` blocks, each with a link in a
//! heading and a snippet in a caption. A page that asks for a proof that the
//! client is no robot sends the search on to another engine.
use vstd::prelude::*;
use vstd::string::*;

use crate::codec;
use crate::search::engine;
use crate::search::engine::{SearchError, SearchResult, SearchResultView};
use crate::text;

verus! {

/// A character that the name of an attribute can hold.
pub open spec fn name_char(c: char) -> bool {
    !text::white(c) && c != '"' && c != '\'' && c != '<' && c != '>' && c != '/' && c != '='
}

fn is_name_char(c: char) -> (r: bool)
    ensures
        r == name_char(c),
{
    !text::is_white(c) && c != '"' && c != '\'' && c != '<' && c != '>' && c != '/' && c != '='
}

/// An attribute named `attr` stands at `p`: the name and a `=`, not behind
/// another character of a name, so that it is no part of a longer one.
pub open spec fn attr_at(s: Seq<char>, attr: Seq<char>, p: int) -> bool {
    text::occurs_at(s, attr + seq!['='], p) && (p == 0 || !name_char(s[p - 1]))
}

/// The closing quote of the quoted value behind the `=` at `p`. Nothing if no
/// `=` stands there, or no quote behind it, or if the quote is never closed.
pub open spec fn closing_quote(s: Seq<char>, p: int) -> Option<int> {
    if 0 <= p && p + 1 < s.len() && s[p] == '=' && (s[p + 1] == '"' || s[p + 1] == '\'') {
        text::find_from(s, seq![s[p + 1]], p + 2)
    } else {
        None
    }
}

/// Reading from `from` on, the position `p` lies inside a quoted value.
pub open spec fn in_quotes(s: Seq<char>, from: int, p: int) -> bool
    decreases p - from,
{
    if from < 0 || p <= from {
        false
    } else {
        proof {
            lemma_closing_quote(s, from);
        }
        match closing_quote(s, from) {
            Some(e) => p <= e || in_quotes(s, e + 1, p),
            None => in_quotes(s, from + 1, p),
        }
    }
}

/// The first position from `from` on at which an attribute named `attr`
/// stands. What quoted values hold is stepped over.
pub open spec fn attr_from(s: Seq<char>, attr: Seq<char>, from: int) -> Option<int>
    decreases s.len() - from,
{
    if from < 0 || from >= s.len() {
        None
    } else if attr_at(s, attr, from) {
        Some(from)
    } else {
        proof {
            lemma_closing_quote(s, from);
        }
        match closing_quote(s, from) {
            Some(e) => attr_from(s, attr, e + 1),
            None => attr_from(s, attr, from + 1),
        }
    }
}

/// A closing quote stands behind the opening one, and no such quote between them.
pub proof fn lemma_closing_quote(s: Seq<char>, p: int)
    ensures
        closing_quote(s, p) matches Some(e) ==> p + 2 <= e < s.len() && s[e] == s[p + 1]
            && forall|i: int| p + 2 <= i < e ==> #[trigger] s[i] != s[p + 1],
{
    if let Some(e) = closing_quote(s, p) {
        let q = seq![s[p + 1]];
        text::lemma_find_from(s, q, p + 2);
        assert(s.subrange(e, e + 1)[0] == s[e]);
        assert forall|i: int| p + 2 <= i < e implies #[trigger] s[i] != s[p + 1] by {
            if s[i] == s[p + 1] {
                assert(s.subrange(i, i + 1) =~= q);
                assert(text::occurs_at(s, q, i));
            }
        }
    }
}

/// The position is the least one outside of quoted values at which an
/// attribute of the name stands, and there is one if there is such a one.
pub proof fn lemma_attr_from(s: Seq<char>, attr: Seq<char>, from: int)
    requires
        0 <= from,
    ensures
        match attr_from(s, attr, from) {
            Some(p) => from <= p && attr_at(s, attr, p) && !in_quotes(s, from, p) && forall|q: int|
                from <= q < p && attr_at(s, attr, q) ==> in_quotes(s, from, q),
            None => forall|q: int| from <= q && attr_at(s, attr, q) ==> in_quotes(s, from, q),
        },
    decreases s.len() - from,
{
    if from < s.len() && !attr_at(s, attr, from) {
        lemma_closing_quote(s, from);
        let next = match closing_quote(s, from) {
            Some(e) => e + 1,
            None => from + 1,
        };
        lemma_attr_from(s, attr, next);
        assert forall|q: int| from < q && (q < next || in_quotes(s, next, q)) implies in_quotes(
            s,
            from,
            q,
        ) by {}
    }
}

/// A value without quotes ends here.
pub open spec fn ends_unquoted(c: char) -> bool {
    text::white(c) || c == '>' || c == '/'
}

/// A value without quotes: what stands before white space, `>` or `/`.
pub open spec fn unquoted(s: Seq<char>) -> Seq<char>
    decreases s.len(),
{
    if s.len() == 0 || ends_unquoted(s[0]) {
        Seq::empty()
    } else {
        seq![s[0]] + unquoted(s.drop_first())
    }
}

/// The value of the first attribute named `attr`: `attr="value"`,
/// `attr='value'` or `attr=value`. Empty if there is none.
pub open spec fn attr_value(s: Seq<char>, attr: Seq<char>) -> Seq<char> {
    match attr_from(s, attr, 0) {
        None => Seq::empty(),
        Some(p) => {
            let after = s.skip(p + attr.len() + 1);
            if after.len() == 0 {
                Seq::empty()
            } else if after[0] == '"' || after[0] == '\'' {
                text::until_any(after.skip(1), seq![after[0]])
            } else {
                unquoted(after)
            }
        },
    }
}

/// A quoted value is read back whole, whatever stands behind it: `v` out of
/// `a attr="v" rest`, where the attribute is the first of its name outside of
/// quoted values.
pub proof fn lemma_quoted_value(
    s: Seq<char>,
    a: Seq<char>,
    attr: Seq<char>,
    quote: char,
    v: Seq<char>,
    rest: Seq<char>,
)
    requires
        s == a + ((attr + seq!['=']) + (seq![quote] + (v + (seq![quote] + rest)))),
        quote == '"' || quote == '\'',
        !v.contains(quote),
        a.len() == 0 || !name_char(a.last()),
        !in_quotes(s, 0, a.len() as int),
        forall|q: int| 0 <= q < a.len() && attr_at(s, attr, q) ==> in_quotes(s, 0, q),
    ensures
        attr_value(s, attr) == v,
{
    let p = a.len() as int;
    let name = attr + seq!['='];
    let value = v + (seq![quote] + rest);
    assert(attr_at(s, attr, p)) by {
        assert(s.subrange(p, p + name.len()) =~= name);
    }
    lemma_attr_from(s, attr, 0);
    let after = s.skip(p + attr.len() + 1);
    assert(after =~= seq![quote] + value);
    assert(after.skip(1) =~= value);
    lemma_until_quote(v, quote, rest);
}

proof fn lemma_until_quote(v: Seq<char>, quote: char, rest: Seq<char>)
    requires
        !v.contains(quote),
    ensures
        text::until_any(v + (seq![quote] + rest), seq![quote]) == v,
    decreases v.len(),
{
    let s = v + (seq![quote] + rest);
    assert(seq![quote][0] == quote);
    if v.len() == 0 {
        assert(s[0] == quote);
    } else {
        assert(v.contains(v[0]));
        let tail = v.drop_first();
        assert forall|c: char| tail.contains(c) implies v.contains(c) by {
            let i = choose|i: int| 0 <= i < tail.len() && tail[i] == c;
            assert(v[i + 1] == c);
        }
        assert(s.drop_first() =~= tail + (seq![quote] + rest));
        lemma_until_quote(tail, quote, rest);
        assert(seq![v[0]] + tail =~= v);
    }
}

fn find_closing_quote(v: &[char], p: usize) -> (r: Option<usize>)
    requires
        p < v@.len(),
    ensures
        text::position(r) == closing_quote(v@, p as int),
{
    if v[p] != '=' || p + 1 >= v.len() || (v[p + 1] != '"' && v[p + 1] != '\'') {
        return None;
    }
    let quote: Vec<char> = vec![v[p + 1]];
    assert(quote@ =~= seq![v@[p + 1]]);
    text::search(v, &quote, p + 2)
}

fn find_attr(s: &str, attr: &str) -> (r: Option<usize>)
    ensures
        text::position(r) == attr_from(s@, attr@, 0),
{
    let v: Vec<char> = text::chars_of(s);
    let mut name: String = attr.to_owned();
    name.push('=');
    assert(name@ =~= attr@ + seq!['=']);
    let pattern: Vec<char> = text::chars_of(name.as_str());
    let mut i: usize = 0;
    while i < v.len()
        invariant
            i <= v.len(),
            v@ == s@,
            pattern@ == attr@ + seq!['='],
            attr_from(s@, attr@, 0) == attr_from(s@, attr@, i as int),
        decreases v.len() - i,
    {
        if (i == 0 || !is_name_char(v[i - 1])) && text::stands_at(&v, &pattern, i) {
            return Some(i);
        }
        proof {
            lemma_closing_quote(s@, i as int);
        }
        match find_closing_quote(&v, i) {
            Some(end) => {
                i = end + 1;
            },
            None => {
                i = i + 1;
            },
        }
    }
    None
}

fn value_without_quotes(s: &str) -> (r: String)
    ensures
        r@ == unquoted(s@),
{
    let v: Vec<char> = text::chars_of(s);
    let mut r: String = String::new();
    let mut i: usize = 0;
    assert(v@.skip(0) =~= v@);
    while i < v.len()
        invariant
            i <= v.len(),
            v@ == s@,
            r@ + unquoted(v@.skip(i as int)) == unquoted(s@),
        decreases v.len() - i,
    {
        let c: char = v[i];
        let ghost rest = v@.skip(i as int);
        assert(rest[0] == c);
        if text::is_white(c) || c == '>' || c == '/' {
            assert(r@ + Seq::<char>::empty() =~= r@);
            return r;
        }
        assert(rest.drop_first() =~= v@.skip(i + 1));
        assert(r@.push(c) + unquoted(v@.skip(i + 1)) =~= r@ + (seq![c] + unquoted(v@.skip(i + 1))));
        r.push(c);
        i = i + 1;
    }
    proof {
        assert(v@.skip(i as int) =~= Seq::empty());
        assert(r@ + Seq::<char>::empty() =~= r@);
    }
    r
}

/// The value of an attribute in the opening of an HTML tag.
pub fn extract_attr_value(s: &str, attr: &str) -> (r: String)
    ensures
        r@ == attr_value(s@, attr@),
{
    proof {
        lemma_attr_from(s@, attr@, 0);
    }
    match find_attr(s, attr) {
        None => String::new(),
        Some(p) => {
            let whole: usize = s.unicode_len();
            assert((attr@ + seq!['=']).len() == attr@.len() + 1);
            assert(p + attr@.len() + 1 <= whole);
            let after: String = text::tail(s, p + attr.unicode_len() + 1);
            let v: Vec<char> = text::chars_of(after.as_str());
            if v.len() == 0 {
                return String::new();
            }
            let quote: char = v[0];
            if quote == '"' || quote == '\'' {
                let inner: String = text::tail(after.as_str(), 1);
                let stops: Vec<char> = vec![quote];
                assert(stops@ =~= seq![after@[0]]);
                text::before_any(inner.as_str(), &stops)
            } else {
                value_without_quotes(after.as_str())
            }
        },
    }
}

/// What stands in `s` outside of `<` and `>`, where the reading begins inside
/// of a tag or not. The brackets themselves are left out wherever they stand.
pub open spec fn outside_tags(s: Seq<char>, in_tag: bool) -> Seq<char>
    decreases s.len(),
{
    if s.len() == 0 {
        Seq::empty()
    } else if s[0] == '<' {
        outside_tags(s.drop_first(), true)
    } else if s[0] == '>' {
        outside_tags(s.drop_first(), false)
    } else if in_tag {
        outside_tags(s.drop_first(), true)
    } else {
        seq![s[0]] + outside_tags(s.drop_first(), false)
    }
}

/// A text without its tags, and without the white space at both ends.
pub open spec fn stripped(s: Seq<char>) -> Seq<char> {
    text::trimmed(outside_tags(s, false))
}

/// Strips the HTML tags from a text.
pub fn strip_html_tags(s: &str) -> (r: String)
    ensures
        r@ == stripped(s@),
{
    let v: Vec<char> = text::chars_of(s);
    let mut kept: String = String::new();
    let mut in_tag: bool = false;
    let mut i: usize = 0;
    assert(v@.skip(0) =~= v@);
    while i < v.len()
        invariant
            i <= v.len(),
            v@ == s@,
            kept@ + outside_tags(v@.skip(i as int), in_tag) == outside_tags(s@, false),
        decreases v.len() - i,
    {
        let ghost rest = v@.skip(i as int);
        let c: char = v[i];
        proof {
            assert(rest.drop_first() =~= v@.skip(i + 1));
            assert(rest[0] == c);
        }
        if c == '<' {
            in_tag = true;
        } else if c == '>' {
            in_tag = false;
        } else if !in_tag {
            assert(kept@ + (seq![c] + outside_tags(v@.skip(i + 1), false)) =~= kept@.push(c)
                + outside_tags(v@.skip(i + 1), false));
            kept.push(c);
        }
        i = i + 1;
    }
    proof {
        assert(v@.skip(i as int) =~= Seq::empty());
        assert(kept@ + Seq::<char>::empty() =~= kept@);
    }
    text::trim(kept.as_str())
}

/// What is left of a text without its tags holds no angle bracket.
pub proof fn lemma_no_brackets(s: Seq<char>, in_tag: bool)
    ensures
        !outside_tags(s, in_tag).contains('<'),
        !outside_tags(s, in_tag).contains('>'),
    decreases s.len(),
{
    if s.len() > 0 {
        lemma_no_brackets(s.drop_first(), true);
        lemma_no_brackets(s.drop_first(), false);
        let rest = outside_tags(s.drop_first(), false);
        let all = outside_tags(s, in_tag);
        if s[0] != '<' && s[0] != '>' && !in_tag {
            assert forall|i: int| 0 <= i < all.len() implies all[i] != '<' && all[i] != '>' by {
                if i > 0 {
                    assert(all[i] == rest[i - 1]);
                    assert(rest.contains(all[i]));
                }
            }
        }
    }
}

/// The position of the opening of a tag: `<tag>` or `<tag ` whichever comes
/// first, or, where neither occurs, `<tag/`.
pub open spec fn tag_open(s: Seq<char>, tag: Seq<char>) -> Option<int> {
    let start = seq!['<'] + tag;
    let exact = text::find_in(s, start + seq!['>']);
    let with_attrs = text::find_in(s, start + seq![' ']);
    match (exact, with_attrs) {
        (Some(a), Some(b)) => Some(if a <= b {
            a
        } else {
            b
        }),
        (Some(a), None) => Some(a),
        (None, Some(b)) => Some(b),
        (None, None) => text::find_in(s, start + seq!['/']),
    }
}

/// How many bytes the first `i` characters of a text take.
pub open spec fn byte_offset(s: Seq<char>, i: int) -> nat {
    vstd::utf8::encode_utf8(s.take(i)).len()
}

/// Finds the opening of an HTML tag: `<tag>`, `<tag attr=...>` or `<tag/`. The
/// position is counted in bytes.
pub fn find_tag_open(s: &str, tag: &str) -> (r: Option<usize>)
    ensures
        match r {
            Some(b) => tag_open(s@, tag@) matches Some(i) && b == byte_offset(s@, i),
            None => tag_open(s@, tag@) is None,
        },
{
    match place_of_tag(s, tag) {
        Some(i) => Some(text::head(s, i).as_str().as_bytes().len()),
        None => None,
    }
}

fn place_of_tag(s: &str, tag: &str) -> (r: Option<usize>)
    ensures
        text::position(r) == tag_open(s@, tag@),
        r matches Some(i) ==> i < s@.len(),
{
    let start: String = text::concat("<", tag);
    proof {
        reveal_strlit("<");
        reveal_strlit(">");
        reveal_strlit(" ");
        reveal_strlit("/");
        assert("<"@ =~= seq!['<']);
        assert(">"@ =~= seq!['>']);
        assert(" "@ =~= seq![' ']);
        assert("/"@ =~= seq!['/']);
        text::lemma_find_from(s@, start@ + seq!['>'], 0);
        text::lemma_find_from(s@, start@ + seq![' '], 0);
        text::lemma_find_from(s@, start@ + seq!['/'], 0);
    }
    let exact: Option<usize> = text::find(s, text::concat(start.as_str(), ">").as_str());
    let with_attrs: Option<usize> = text::find(s, text::concat(start.as_str(), " ").as_str());
    match (exact, with_attrs) {
        (Some(a), Some(b)) => Some(if a <= b {
            a
        } else {
            b
        }),
        (Some(a), None) => Some(a),
        (None, Some(b)) => Some(b),
        (None, None) => text::find(s, text::concat(start.as_str(), "/").as_str()),
    }
}

/// What follows the first `p` in `s`, if there is one.
pub open spec fn after(s: Seq<char>, p: Seq<char>) -> Option<Seq<char>> {
    match text::find_in(s, p) {
        Some(i) => Some(s.skip(i + p.len())),
        None => None,
    }
}

/// What precedes the first `p` in `s`, if there is one.
pub open spec fn before(s: Seq<char>, p: Seq<char>) -> Option<Seq<char>> {
    match text::find_in(s, p) {
        Some(i) => Some(s.take(i)),
        None => None,
    }
}

fn text_after(s: &str, p: &str) -> (r: Option<String>)
    ensures
        codec::text_view(r) == after(s@, p@),
{
    proof {
        text::lemma_find_from(s@, p@, 0);
    }
    match text::find(s, p) {
        Some(i) => {
            let whole: usize = s.unicode_len();
            assert(i + p@.len() <= whole);
            Some(text::tail(s, i + p.unicode_len()))
        },
        None => None,
    }
}

fn text_before(s: &str, p: &str) -> (r: Option<String>)
    ensures
        codec::text_view(r) == before(s@, p@),
{
    proof {
        text::lemma_find_from(s@, p@, 0);
    }
    match text::find(s, p) {
        Some(i) => Some(text::head(s, i)),
        None => None,
    }
}

/// The content of the tag `tag` in `s`: what follows the `>` of its opening.
pub open spec fn tag_content(s: Seq<char>, tag: Seq<char>) -> Option<Seq<char>> {
    match tag_open(s, tag) {
        Some(i) => after(s.skip(i), ">"@),
        None => None,
    }
}

fn content_of(s: &str, tag: &str) -> (r: Option<String>)
    ensures
        codec::text_view(r) == tag_content(s@, tag@),
{
    match place_of_tag(s, tag) {
        Some(i) => {
            let rest: String = text::tail(s, i);
            text_after(rest.as_str(), ">")
        },
        None => None,
    }
}

/// The encoded target in a tracking link: what stands between `u=a1` and the
/// next `&`, or the end.
pub open spec fn redirect_payload(url: Seq<char>) -> Option<Seq<char>> {
    if text::contains_text(url, "/ck/a"@) {
        match after(url, "u=a1"@) {
            Some(rest) => Some(
                match before(rest, "&"@) {
                    Some(p) => p,
                    None => rest,
                },
            ),
            None => None,
        }
    } else {
        None
    }
}

/// The target of a link: of a tracking link what its payload encodes, of any other the link itself.
pub open spec fn redirect_target(url: Seq<char>) -> Seq<char> {
    match redirect_payload(url) {
        Some(p) => match codec::base64_url_bytes(p) {
            Some(b) => codec::lossy_text(b),
            None => url,
        },
        None => url,
    }
}

/// Decodes a `/ck/a` tracking redirect to the real target URL.
///
/// Organic results come wrapped in `https://www.bing.com/ck/a?...&u=a1<payload>`,
/// where the payload is the target in base64url without padding. Such a payload
/// gives back the target that was encoded; URLs that carry none are returned unchanged.
pub fn decode_bing_redirect(url: &str) -> (r: String)
    ensures
        r@ == redirect_target(url@),
        redirect_payload(url@) is None ==> r@ == url@,
        forall|t: Seq<char>|
            redirect_payload(url@) == Some(
                #[trigger] codec::base64_url_text(vstd::utf8::encode_utf8(t)),
            ) ==> r@ == t,
{
    if !text::contains(url, "/ck/a") {
        return url.to_owned();
    }
    let rest: String = match text_after(url, "u=a1") {
        Some(rest) => rest,
        None => {
            return url.to_owned();
        },
    };
    let payload: String = match text_before(rest.as_str(), "&") {
        Some(p) => p,
        None => rest,
    };
    match codec::base64_url_decode(payload.as_str()) {
        Some(bytes) => {
            let r: String = codec::utf8_lossy(&bytes);
            proof {
                assert forall|t: Seq<char>|
                    payload@ == #[trigger] codec::base64_url_text(
                        vstd::utf8::encode_utf8(t),
                    ) implies r@ == t by {
                    codec::lemma_base64_round_trip(vstd::utf8::encode_utf8(t));
                    vstd::utf8::encode_utf8_valid_utf8(t);
                    vstd::utf8::encode_utf8_decode_utf8(t);
                }
            }
            r
        },
        None => {
            proof {
                assert forall|t: Seq<char>|
                    payload@ == #[trigger] codec::base64_url_text(
                        vstd::utf8::encode_utf8(t),
                    ) implies false by {
                    codec::lemma_base64_round_trip(vstd::utf8::encode_utf8(t));
                }
            }
            url.to_owned()
        },
    }
}

/// The link in the heading of a result block: its text without tags, and where
/// it leads. Both are empty where the block has no whole link opening in a heading.
pub open spec fn bing_link(block: Seq<char>) -> (Seq<char>, Seq<char>) {
    let none = (Seq::<char>::empty(), Seq::<char>::empty());
    match tag_content(block, "h2"@) {
        None => none,
        Some(heading) => match after(heading, "<a "@) {
            None => none,
            Some(link) => match after(link, ">"@) {
                None => none,
                Some(inner) => {
                    let title = match before(inner, "</a>"@) {
                        Some(raw) => stripped(raw),
                        None => Seq::empty(),
                    };
                    (title, redirect_target(attr_value(link, "href"@)))
                },
            },
        },
    }
}

/// Extracts title and URL from a result block, as in
/// `<h2 class=""><a href="...">Title (with <strong>tags</strong>)</a></h2>`.
pub fn extract_bing_link(block: &str) -> (r: (String, String))
    ensures
        (r.0@, r.1@) == bing_link(block@),
{
    let heading: String = match content_of(block, "h2") {
        Some(t) => t,
        None => {
            return (String::new(), String::new());
        },
    };
    let link: String = match text_after(heading.as_str(), "<a ") {
        Some(t) => t,
        None => {
            return (String::new(), String::new());
        },
    };
    let url: String = extract_attr_value(link.as_str(), "href");
    let inner: String = match text_after(link.as_str(), ">") {
        Some(t) => t,
        None => {
            return (String::new(), String::new());
        },
    };
    let title: String = match text_before(inner.as_str(), "</a>") {
        Some(raw) => strip_html_tags(raw.as_str()),
        None => String::new(),
    };
    (title, decode_bing_redirect(url.as_str()))
}

/// The snippet of a result block: the first paragraph after `b_caption`, or of
/// the whole block where that does not occur.
pub open spec fn bing_snippet(block: Seq<char>) -> Seq<char> {
    let area = match text::find_in(block, "b_caption"@) {
        Some(i) => block.skip(i),
        None => block,
    };
    match tag_content(area, "p"@) {
        None => Seq::empty(),
        Some(rest) => match before(rest, "</p>"@) {
            None => Seq::empty(),
            Some(raw) => stripped(raw),
        },
    }
}

/// Extracts the snippet from a result block.
pub fn extract_bing_snippet(block: &str) -> (r: String)
    ensures
        r@ == bing_snippet(block@),
{
    proof {
        text::lemma_find_from(block@, "b_caption"@, 0);
    }
    let area: String = match text::find(block, "b_caption") {
        Some(i) => text::tail(block, i),
        None => block.to_owned(),
    };
    match content_of(area.as_str(), "p") {
        None => String::new(),
        Some(rest) => match text_before(rest.as_str(), "</p>") {
            None => String::new(),
            Some(raw) => strip_html_tags(raw.as_str()),
        },
    }
}

/// A block that holds a result: one with a title and a URL.
pub open spec fn usable(block: Seq<char>) -> bool {
    bing_link(block).0.len() > 0 && bing_link(block).1.len() > 0
}

/// What the result of a block says.
pub open spec fn block_result(block: Seq<char>) -> SearchResultView {
    SearchResultView {
        title: engine::entities_decoded(bing_link(block).0),
        url: bing_link(block).1,
        snippet: engine::entities_decoded(bing_snippet(block)),
        source: "Bing"@,
        extra: None,
    }
}

/// The results of the usable ones among blocks, in order.
pub open spec fn block_results(blocks: Seq<Seq<char>>) -> Seq<SearchResultView>
    decreases blocks.len(),
{
    if blocks.len() == 0 {
        Seq::empty()
    } else {
        let front = block_results(blocks.drop_last());
        if usable(blocks.last()) {
            front.push(block_result(blocks.last()))
        } else {
            front
        }
    }
}

/// The result blocks of a page: what follows each `class="b_algo"`, up to the next.
pub open spec fn result_blocks(html: Seq<char>) -> Seq<Seq<char>> {
    text::pieces(html, "class=\"b_algo\""@).skip(1)
}

/// The results that a page gives when at most `max` are wanted.
pub open spec fn page_results(html: Seq<char>, max: int) -> Seq<SearchResultView> {
    let all = block_results(result_blocks(html));
    if all.len() <= max {
        all
    } else {
        all.take(max)
    }
}

proof fn lemma_results_prefix(blocks: Seq<Seq<char>>, n: int)
    requires
        0 <= n <= blocks.len(),
    ensures
        block_results(blocks.take(n)).len() <= block_results(blocks).len(),
        block_results(blocks).take(block_results(blocks.take(n)).len() as int) == block_results(
            blocks.take(n),
        ),
    decreases blocks.len(),
{
    if n == blocks.len() {
        assert(blocks.take(n) =~= blocks);
        assert(block_results(blocks).take(block_results(blocks).len() as int) =~= block_results(
            blocks,
        ));
    } else {
        let front = blocks.drop_last();
        lemma_results_prefix(front, n);
        assert(front.take(n) =~= blocks.take(n));
        let k = block_results(blocks.take(n)).len() as int;
        assert(block_results(blocks).take(k) =~= block_results(front).take(k));
    }
}

/// Every result of a page has a URL and the engine's name, and no more results
/// come than were asked for.
pub proof fn lemma_page_results(html: Seq<char>, max: int)
    requires
        0 <= max,
    ensures
        page_results(html, max).len() <= max,
        forall|i: int|
            0 <= i < page_results(html, max).len() ==> {
                let r = #[trigger] page_results(html, max)[i];
                r.url.len() > 0 && r.source == "Bing"@ && r.extra is None
            },
{
    lemma_block_results(result_blocks(html));
}

proof fn lemma_block_results(blocks: Seq<Seq<char>>)
    ensures
        forall|i: int|
            0 <= i < block_results(blocks).len() ==> {
                let r = #[trigger] block_results(blocks)[i];
                r.url.len() > 0 && r.source == "Bing"@ && r.extra is None
            },
    decreases blocks.len(),
{
    if blocks.len() > 0 {
        lemma_block_results(blocks.drop_last());
        let front = block_results(blocks.drop_last());
        let all = block_results(blocks);
        assert forall|i: int| 0 <= i < all.len() implies {
            let r = #[trigger] all[i];
            r.url.len() > 0 && r.source == "Bing"@ && r.extra is None
        } by {
            if i < front.len() {
                assert(all[i] == front[i]);
            }
        }
    }
}

/// Parses a result page: the results of its usable blocks, `max_results` of them at most.
pub fn parse_bing_html(html: &str, max_results: usize) -> (r: Vec<SearchResult>)
    ensures
        engine::result_views(r@) == page_results(html@, max_results as int),
{
    proof {
        reveal_strlit("class=\"b_algo\"");
        text::lemma_joined_pieces(html@, "class=\"b_algo\""@);
    }
    let pieces: Vec<String> = text::split(html, "class=\"b_algo\"");
    let ghost blocks = result_blocks(html@);
    let mut results: Vec<SearchResult> = Vec::new();
    let mut i: usize = 1;
    proof {
        assert(text::views(pieces@).len() == pieces@.len());
        assert(blocks.len() == pieces@.len() - 1);
        assert(blocks.take(0) =~= Seq::empty());
        assert(engine::result_views(results@) =~= Seq::empty());
    }
    while i < pieces.len() && results.len() < max_results
        invariant
            1 <= i <= pieces.len(),
            text::views(pieces@) == text::pieces(html@, "class=\"b_algo\""@),
            blocks == result_blocks(html@),
            blocks.len() == pieces@.len() - 1,
            results.len() <= max_results,
            engine::result_views(results@) == block_results(blocks.take(i - 1)),
        decreases pieces.len() - i,
    {
        let block: &String = &pieces[i];
        proof {
            assert(text::views(pieces@)[i as int] == block@);
            assert(blocks[i - 1] == block@);
            assert(blocks.take(i as int).drop_last() =~= blocks.take(i - 1));
        }
        let (title, url): (String, String) = extract_bing_link(block.as_str());
        let snippet: String = extract_bing_snippet(block.as_str());
        if !text::is_empty(url.as_str()) && !text::is_empty(title.as_str()) {
            let result: SearchResult = SearchResult {
                title: engine::decode_html_entities(title.as_str()),
                url,
                snippet: engine::decode_html_entities(snippet.as_str()),
                source: "Bing".to_owned(),
                extra: None,
            };
            proof {
                assert(engine::result_views(results@.push(result)) =~= engine::result_views(
                    results@,
                ).push(result@));
            }
            results.push(result);
        }
        i = i + 1;
    }
    proof {
        lemma_results_prefix(blocks, i - 1);
        let seen = block_results(blocks.take(i - 1));
        assert(seen.len() == results@.len());
        if i == pieces.len() {
            assert(blocks.take(i - 1) =~= blocks);
        } else {
            assert(seen =~= page_results(html@, max_results as int));
        }
    }
    results
}

/// A page that asks for a proof that the client is no robot.
pub open spec fn captcha(html: Seq<char>) -> bool {
    text::contains_text(html, "CaptchaChallenge"@) || text::contains_text(html, " Bing captcha "@)
}

/// Whether a page asks for a proof that the client is no robot.
pub fn is_captcha(html: &str) -> (r: bool)
    ensures
        r == captcha(html@),
{
    text::contains(html, "CaptchaChallenge") || text::contains(html, " Bing captcha ")
}

/// The text that a status code of `reqwest` is printed as.
pub uninterp spec fn status_line(code: u16) -> Seq<char>;

/// `StatusCode::from_u16` and the `Display` of `StatusCode`, both of the
/// `reqwest` crate: a text that the code alone decides, which begins with the
/// code in decimal and a space. The reason that follows is left to the name.
#[verifier::external_body]
fn status_text(code: u16) -> (r: String)
    requires
        100 <= code < 1000,
    ensures
        r@ == status_line(code),
        text::begins_with(r@, text::decimal(code as nat).push(' ')),
{
    format!("{}", reqwest::StatusCode::from_u16(code).unwrap())
}

/// The URL to ask for the results of a query.
pub open spec fn query_url(query: Seq<char>) -> Seq<char> {
    "https://www.bing.com/search?q="@ + engine::percent_encoded(vstd::utf8::encode_utf8(query))
}

/// The URL to ask for the results of a query.
pub fn search_url(query: &str) -> (r: String)
    ensures
        r@ == query_url(query@),
{
    text::concat("https://www.bing.com/search?q=", engine::url_encode(query).as_str())
}

/// What a response means: an error status is a network error, a page that asks
/// for a proof of humanity is that error, any other page its results.
pub open spec fn response_meaning(
    code: u16,
    html: Seq<char>,
    max: int,
    r: Result<Vec<SearchResult>, SearchError>,
) -> bool {
    if !(200 <= code < 300) {
        r matches Err(SearchError::Network(m)) && m@ == "Bing returned HTTP "@ + status_line(code)
    } else if captcha(html) {
        r matches Err(SearchError::Captcha(m)) && m@ == "Bing CAPTCHA challenge detected"@
    } else {
        r matches Ok(v) && engine::result_views(v@) == page_results(html, max)
    }
}

/// Reads a response. The body is taken as UTF-8 whatever charset its header names.
pub fn read_response(code: u16, body: &[u8], max_results: usize) -> (r: Result<
    Vec<SearchResult>,
    SearchError,
>)
    requires
        100 <= code < 1000,
    ensures
        response_meaning(code, codec::lossy_text(body@), max_results as int, r),
{
    if !(200 <= code && code < 300) {
        let line: String = status_text(code);
        return Err(SearchError::Network(text::concat("Bing returned HTTP ", line.as_str())));
    }
    let html: String = codec::utf8_lossy(body);
    if is_captcha(html.as_str()) {
        return Err(SearchError::Captcha("Bing CAPTCHA challenge detected".to_owned()));
    }
    Ok(parse_bing_html(html.as_str(), max_results))
}

/// What a search does once Bing has answered.
pub enum AfterBing {
    /// The search is over with this answer.
    Answer(Result<Vec<SearchResult>, SearchError>),
    /// The same query goes to DuckDuckGo, whose answer is the search's answer.
    AskDuckDuckGo,
}

/// Decides what a search does with Bing's answer: a request for a proof of
/// humanity is never passed on to the caller, any other answer is.
pub fn after_bing(answer: Result<Vec<SearchResult>, SearchError>) -> (r: AfterBing)
    ensures
        r is AskDuckDuckGo <==> (answer matches Err(SearchError::Captcha(_))),
        r matches AfterBing::Answer(a) ==> a == answer,
{
    match answer {
        Err(SearchError::Captcha(_)) => AfterBing::AskDuckDuckGo,
        other => AfterBing::Answer(other),
    }
}

/// The engine's name.
pub fn name() -> (r: &'static str)
    ensures
        r@ == "Bing"@,
{
    "Bing"
}

/// A result of a page, before it is written in HTML.
pub struct Entry {
    pub title: Seq<char>,
    pub url: Seq<char>,
    pub snippet: Seq<char>,
}

/// A text that is shown in HTML as it is: it does not begin or end with white space.
pub open spec fn shown_whole(s: Seq<char>) -> bool {
    s.len() > 0 ==> !text::white(s[0]) && !text::white(s.last())
}

/// An entry that a page can show: with a title and a URL, whose URL stands in
/// quotes and leads where it says.
pub open spec fn showable(e: Entry) -> bool {
    &&& e.title.len() > 0
    &&& e.url.len() > 0
    &&& shown_whole(e.title)
    &&& shown_whole(e.snippet)
    &&& !e.url.contains('"')
    &&& !e.url.contains('<')
    &&& !e.url.contains('>')
    &&& !text::contains_text(e.url, "/ck/a"@)
}

/// How a page shows an entry: the link with the title in a heading, and the
/// snippet in the paragraph of a caption.
pub open spec fn entry_html(e: Entry) -> Seq<char> {
    "><h2><a href=\""@ + e.url + "\">"@ + engine::escaped(e.title)
        + "</a></h2><div class=\"b_caption\"><p>"@ + engine::escaped(e.snippet) + "</p></div></li>"@
}

/// What stands outside of tags stays, where there are none.
proof fn lemma_no_tags(s: Seq<char>)
    requires
        forall|i: int| 0 <= i < s.len() ==> (#[trigger] s[i]) != '<' && s[i] != '>',
    ensures
        outside_tags(s, false) == s,
    decreases s.len(),
{
    if s.len() > 0 {
        let rest = s.drop_first();
        assert forall|i: int| 0 <= i < rest.len() implies (#[trigger] rest[i]) != '<' && rest[i]
            != '>' by {
            assert(rest[i] == s[i + 1]);
        }
        lemma_no_tags(rest);
        assert(seq![s[0]] + rest =~= s);
    }
}

/// Tags inside of a text are left out, and what stands around them stays:
/// `a<t>b` gives `ab`.
pub proof fn lemma_tag_left_out(a: Seq<char>, t: Seq<char>, b: Seq<char>)
    requires
        !a.contains('<') && !a.contains('>'),
        !t.contains('<') && !t.contains('>'),
    ensures
        outside_tags(a + (seq!['<'] + t + seq!['>'] + b), false) == a + outside_tags(b, false),
    decreases a.len(),
{
    let tag = seq!['<'] + t + seq!['>'] + b;
    let s = a + tag;
    if a.len() == 0 {
        assert(s =~= tag);
        assert(s.drop_first() =~= t + (seq!['>'] + b));
        lemma_in_tag(t, b);
        assert(a + outside_tags(b, false) =~= outside_tags(b, false));
    } else {
        assert(a.contains(a[0]));
        let rest = a.drop_first();
        assert(!rest.contains('<') && !rest.contains('>')) by {
            assert forall|i: int| 0 <= i < rest.len() implies rest[i] != '<' && rest[i] != '>' by {
                assert(rest[i] == a[i + 1]);
                assert(a.contains(a[i + 1]));
            }
        }
        lemma_tag_left_out(rest, t, b);
        assert(s.drop_first() =~= rest + tag);
        assert(seq![a[0]] + (rest + outside_tags(b, false)) =~= a + outside_tags(b, false));
    }
}

proof fn lemma_in_tag(t: Seq<char>, b: Seq<char>)
    requires
        !t.contains('<') && !t.contains('>'),
    ensures
        outside_tags(t + (seq!['>'] + b), true) == outside_tags(b, false),
    decreases t.len(),
{
    let s = t + (seq!['>'] + b);
    if t.len() == 0 {
        assert(s.drop_first() =~= b);
    } else {
        assert(t.contains(t[0]));
        let rest = t.drop_first();
        assert(!rest.contains('<') && !rest.contains('>')) by {
            assert forall|i: int| 0 <= i < rest.len() implies rest[i] != '<' && rest[i] != '>' by {
                assert(rest[i] == t[i + 1]);
                assert(t.contains(t[i + 1]));
            }
        }
        lemma_in_tag(rest, b);
        assert(s.drop_first() =~= rest + (seq!['>'] + b));
    }
}

proof fn lemma_escaped_stripped(s: Seq<char>)
    requires
        shown_whole(s),
    ensures
        stripped(engine::escaped(s)) == engine::escaped(s),
        !engine::escaped(s).contains('<'),
        !engine::escaped(s).contains('>'),
        !engine::escaped(s).contains('"'),
        s.len() > 0 ==> engine::escaped(s).len() > 0,
{
    engine::lemma_escaped_plain(s);
    lemma_no_tags(engine::escaped(s));
    text::lemma_trimmed_same(engine::escaped(s));
}

/// What follows the first `p` in `a + p + b`, and what precedes it, where the
/// first character of `p` does not occur in `a`.
proof fn lemma_cut(a: Seq<char>, p: Seq<char>, b: Seq<char>)
    requires
        p.len() > 0,
        !a.contains(p[0]),
    ensures
        after(a + p + b, p) == Some(b),
        before(a + p + b, p) == Some(a),
{
    let s = a + p + b;
    let n = a.len() as int;
    assert(s.subrange(n, n + p.len()) =~= p);
    assert forall|j: int| 0 <= j < n implies !text::occurs_at(s, p, j) by {
        if text::occurs_at(s, p, j) {
            text::lemma_occurs_chars(s, p, j, 0);
            assert(a.contains(a[j]));
        }
    }
    text::lemma_found_at(s, p, n);
    assert(s.skip(n + p.len()) =~= b);
    assert(s.take(n) =~= a);
}

/// The characters of the fixed parts of an entry.
proof fn lemma_entry_parts()
    ensures
        "><h2><a href=\""@ == seq![
            '>', '<', 'h', '2', '>', '<', 'a', ' ', 'h', 'r', 'e', 'f', '=', '"',
        ],
        "\">"@ == seq!['"', '>'],
        "</a></h2><div class=\"b_caption\"><p>"@ == seq![
            '<', '/', 'a', '>', '<', '/', 'h', '2', '>', '<', 'd', 'i', 'v', ' ', 'c', 'l', 'a',
            's', 's', '=', '"', 'b', '_', 'c', 'a', 'p', 't', 'i', 'o', 'n', '"', '>', '<', 'p',
            '>',
        ],
        "</p></div></li>"@ == seq![
            '<', '/', 'p', '>', '<', '/', 'd', 'i', 'v', '>', '<', '/', 'l', 'i', '>',
        ],
{
    reveal_strlit("><h2><a href=\"");
    reveal_strlit("\">");
    reveal_strlit("</a></h2><div class=\"b_caption\"><p>");
    reveal_strlit("</p></div></li>");
    assert("><h2><a href=\""@ =~= seq![
        '>', '<', 'h', '2', '>', '<', 'a', ' ', 'h', 'r', 'e', 'f', '=', '"',
    ]);
    assert("\">"@ =~= seq!['"', '>']);
    assert("</a></h2><div class=\"b_caption\"><p>"@ =~= seq![
        '<', '/', 'a', '>', '<', '/', 'h', '2', '>', '<', 'd', 'i', 'v', ' ', 'c', 'l', 'a', 's',
        's', '=', '"', 'b', '_', 'c', 'a', 'p', 't', 'i', 'o', 'n', '"', '>', '<', 'p', '>',
    ]);
    assert("</p></div></li>"@ =~= seq![
        '<', '/', 'p', '>', '<', '/', 'd', 'i', 'v', '>', '<', '/', 'l', 'i', '>',
    ]);
}

proof fn lemma_entry_link(e: Entry)
    requires
        showable(e),
    ensures
        bing_link(entry_html(e)) == (engine::escaped(e.title), e.url),
{
    lemma_entry_parts();
    lemma_escaped_stripped(e.title);
    reveal_strlit("h2");
    reveal_strlit("<a ");
    reveal_strlit(">");
    reveal_strlit("</a>");
    reveal_strlit("href");
    let block = entry_html(e);
    let et = engine::escaped(e.title);
    let es = engine::escaped(e.snippet);
    let end = "</h2><div class=\"b_caption\"><p>"@;
    reveal_strlit("</h2><div class=\"b_caption\"><p>");
    let close = end + es + "</p></div></li>"@;
    let inner = et + "</a>"@ + close;
    let link = "href"@ + seq!['='] + seq!['"'] + e.url + seq!['"'] + seq!['>'] + inner;
    let heading = "<a "@ + link;
    assert(block.skip(5) =~= heading);
    // The heading.
    let start = seq!['<'] + "h2"@;
    let exact = start + seq!['>'];
    assert(block.subrange(1, 5) =~= exact);
    assert(!text::occurs_at(block, exact, 0)) by {
        if text::occurs_at(block, exact, 0) {
            text::lemma_occurs_chars(block, exact, 0, 0);
        }
    }
    text::lemma_found_at(block, exact, 1);
    let with_attrs = start + seq![' '];
    text::lemma_find_from(block, with_attrs, 0);
    if text::find_in(block, with_attrs) is Some {
        text::lemma_occurs_chars(block, with_attrs, text::find_in(block, with_attrs)->0, 0);
    }
    assert(tag_open(block, "h2"@) == Some(1int));
    let cut = seq!['<', 'h', '2'];
    assert(">"@ =~= seq!['>']);
    assert(block.skip(1) =~= cut + ">"@ + heading);
    lemma_cut(cut, ">"@, heading);
    assert(tag_content(block, "h2"@) == Some(heading));
    // The link.
    assert(Seq::<char>::empty() + "<a "@ + link =~= heading);
    lemma_cut(Seq::empty(), "<a "@, link);
    let opening = "href"@ + seq!['='] + seq!['"'] + e.url + seq!['"'];
    assert(!opening.contains('>')) by {
        assert forall|i: int| 0 <= i < opening.len() implies opening[i] != '>' by {
            if 6 <= i < 6 + e.url.len() {
                assert(opening[i] == e.url[i - 6]);
                assert(e.url.contains(e.url[i - 6]));
            }
        }
    }
    assert(link =~= opening + ">"@ + inner);
    lemma_cut(opening, ">"@, inner);
    lemma_cut(et, "</a>"@, close);
    let none = Seq::<char>::empty();
    let rest = seq!['>'] + inner;
    assert(link =~= none + (("href"@ + seq!['=']) + (seq!['"'] + (e.url + (seq!['"'] + rest)))));
    lemma_quoted_value(link, none, "href"@, '"', e.url, rest);
    assert(redirect_target(e.url) == e.url);
}

proof fn lemma_entry_snippet(e: Entry)
    requires
        showable(e),
    ensures
        bing_snippet(entry_html(e)) == engine::escaped(e.snippet),
{
    lemma_entry_parts();
    lemma_escaped_stripped(e.title);
    lemma_escaped_stripped(e.snippet);
    reveal_strlit("b_caption");
    reveal_strlit("p");
    reveal_strlit(">");
    reveal_strlit("</p>");
    let block = entry_html(e);
    let et = engine::escaped(e.title);
    let es = engine::escaped(e.snippet);
    let c: int = 14 + e.url.len() as int + 2 + et.len();
    // The caption's mark is found there or before.
    assert(block.subrange(c + 21, c + 30) =~= "b_caption"@);
    text::lemma_find_from(block, "b_caption"@, 0);
    assert(text::occurs_at(block, "b_caption"@, c + 21));
    let i = text::find_in(block, "b_caption"@)->0;
    assert(0 <= i <= c + 21);
    let area = block.skip(i);
    let at = c + 32 - i;
    let start = seq!['<'] + "p"@;
    let exact = start + seq!['>'];
    let with_attrs = start + seq![' '];
    assert forall|j: int| 0 <= j < c + 32 && #[trigger] block[j] == '<' implies block[j + 1] != 'p' by {
        if 14 <= j < 14 + e.url.len() {
            assert(block[j] == e.url[j - 14]);
            assert(e.url.contains(e.url[j - 14]));
        }
        if 16 + e.url.len() <= j < c {
            assert(block[j] == et[j - 16 - e.url.len()]);
            assert(et.contains(et[j - 16 - e.url.len()]));
        }
    }
    assert(block[c + 32] == '<' && block[c + 33] == 'p' && block[c + 34] == '>');
    assert(area.subrange(at, at + 3) =~= exact);
    assert forall|j: int| 0 <= j < at implies !text::occurs_at(area, exact, j)
        && !text::occurs_at(area, with_attrs, j) by {
        if text::occurs_at(area, exact, j) {
            text::lemma_occurs_chars(area, exact, j, 0);
            text::lemma_occurs_chars(area, exact, j, 1);
            assert(area[j] == block[i + j] && area[j + 1] == block[i + j + 1]);
        }
        if text::occurs_at(area, with_attrs, j) {
            text::lemma_occurs_chars(area, with_attrs, j, 0);
            text::lemma_occurs_chars(area, with_attrs, j, 1);
            assert(area[j] == block[i + j] && area[j + 1] == block[i + j + 1]);
        }
    }
    text::lemma_found_at(area, exact, at);
    text::lemma_find_from(area, with_attrs, 0);
    assert(tag_open(area, "p"@) == Some(at));
    let close = "</div></li>"@;
    reveal_strlit("</div></li>");
    let rest = es + "</p>"@ + close;
    let cut = seq!['<', 'p'];
    assert(">"@ =~= seq!['>']);
    assert(area.skip(at) =~= cut + ">"@ + rest);
    lemma_cut(cut, ">"@, rest);
    assert(tag_content(area, "p"@) == Some(rest));
    lemma_cut(es, "</p>"@, close);
}

/// A result block that shows an entry gives the entry: its title and its
/// snippet as they were before they were written in HTML, and its URL.
pub proof fn lemma_entry_read_back(e: Entry)
    requires
        showable(e),
    ensures
        usable(entry_html(e)),
        block_result(entry_html(e)).title == e.title,
        block_result(entry_html(e)).url == e.url,
        block_result(entry_html(e)).snippet == e.snippet,
        block_result(entry_html(e)).source == "Bing"@,
        block_result(entry_html(e)).extra is None,
{
    lemma_entry_link(e);
    lemma_entry_snippet(e);
    lemma_escaped_stripped(e.title);
    engine::lemma_escaped_read_back(e.title);
    engine::lemma_escaped_read_back(e.snippet);
}

proof fn lemma_entry_unmarked(e: Entry)
    requires
        showable(e),
    ensures
        !text::contains_text(entry_html(e), "class=\"b_algo\""@),
{
    lemma_entry_parts();
    lemma_escaped_stripped(e.title);
    lemma_escaped_stripped(e.snippet);
    reveal_strlit("class=\"b_algo\"");
    let m = "class=\"b_algo\""@;
    let block = entry_html(e);
    let et = engine::escaped(e.title);
    let es = engine::escaped(e.snippet);
    let u = e.url.len() as int;
    let c = 16 + u + et.len();
    let z = c + 35 + es.len();
    assert forall|i: int| !text::occurs_at(block, m, i) by {
        if text::occurs_at(block, m, i) {
            text::lemma_occurs_chars(block, m, i, 4);
            text::lemma_occurs_chars(block, m, i, 6);
            text::lemma_occurs_chars(block, m, i, 7);
            text::lemma_occurs_chars(block, m, i, 9);
            let q = i + 6;
            assert(block[q] == '"' && block[q + 1] == 'b' && block[q - 2] == 's' && block[q + 3]
                == 'a');
            if q < 14 {
                assert(block[q - 2] == 'f');
            } else if q < 14 + u {
                assert(block[q] == e.url[q - 14]);
                assert(e.url.contains(e.url[q - 14]));
            } else if q < 16 + u {
                assert(block[q + 1] == '>');
            } else if q < c {
                assert(block[q] == et[q - 16 - u]);
                assert(et.contains(et[q - 16 - u]));
            } else if q < c + 35 {
                assert(block[c + 20] == '"' && block[c + 30] == '"');
                assert(block[c + 23] == 'c' && block[c + 31] == '>');
            } else if q < z {
                assert(block[q] == es[q - c - 35]);
                assert(es.contains(es[q - c - 35]));
            }
        }
    }
}

/// A page that shows entries: something before them, and then each behind the
/// mark of a result.
pub open spec fn page_html(before: Seq<char>, entries: Seq<Entry>) -> Seq<char> {
    text::joined(
        seq![before] + entries.map_values(|e: Entry| entry_html(e)),
        "class=\"b_algo\""@,
    )
}

/// A page that shows entries gives them back, all of them and in order, as far
/// as that many are wanted: titles and snippets as they were before they were
/// written in HTML, and the URLs.
pub proof fn lemma_page_read_back(before: Seq<char>, entries: Seq<Entry>, max: int)
    requires
        !text::contains_text(before, "class=\"b_algo\""@),
        forall|i: int| 0 <= i < entries.len() ==> showable(#[trigger] entries[i]),
        0 <= max,
    ensures
        ({
            let r = page_results(page_html(before, entries), max);
            &&& r.len() == if entries.len() <= max {
                entries.len() as int
            } else {
                max
            }
            &&& forall|i: int|
                0 <= i < r.len() ==> (#[trigger] r[i]).title == entries[i].title && r[i].url
                    == entries[i].url && r[i].snippet == entries[i].snippet
        }),
{
    reveal_strlit("class=\"b_algo\"");
    let m = "class=\"b_algo\""@;
    let blocks = entries.map_values(|e: Entry| entry_html(e));
    let parts = seq![before] + blocks;
    assert forall|i: int| 0 <= i < parts.len() implies !text::contains_text(#[trigger] parts[i], m) by {
        if i > 0 {
            assert(parts[i] == entry_html(entries[i - 1]));
            lemma_entry_unmarked(entries[i - 1]);
        }
    }
    assert forall|k: int| 1 <= k < m.len() implies #[trigger] m[k] != m[0] by {}
    text::lemma_pieces_joined_by(parts, m);
    assert(result_blocks(page_html(before, entries)) =~= blocks);
    assert forall|i: int| 0 <= i < blocks.len() implies usable(#[trigger] blocks[i]) by {
        lemma_entry_read_back(entries[i]);
    }
    lemma_all_usable(blocks);
    let all = block_results(blocks);
    assert forall|i: int| 0 <= i < entries.len() implies (#[trigger] all[i]).title
        == entries[i].title && all[i].url == entries[i].url && all[i].snippet
        == entries[i].snippet by {
        lemma_entry_read_back(entries[i]);
        assert(all[i] == block_result(blocks[i]));
    }
}

proof fn lemma_all_usable(blocks: Seq<Seq<char>>)
    requires
        forall|i: int| 0 <= i < blocks.len() ==> usable(#[trigger] blocks[i]),
    ensures
        block_results(blocks).len() == blocks.len(),
        forall|i: int|
            0 <= i < blocks.len() ==> #[trigger] block_results(blocks)[i] == block_result(blocks[i]),
    decreases blocks.len(),
{
    if blocks.len() > 0 {
        let front = blocks.drop_last();
        assert forall|i: int| 0 <= i < front.len() implies usable(#[trigger] front[i]) by {
            assert(front[i] == blocks[i]);
        }
        assert(usable(blocks[blocks.len() - 1]));
        lemma_all_usable(front);
        assert forall|i: int| 0 <= i < blocks.len() implies #[trigger] block_results(blocks)[i]
            == block_result(blocks[i]) by {
            if i < front.len() {
                assert(block_results(front)[i] == block_result(front[i]));
            }
        }
    }
}

/// A block without a title or without a URL gives no result, and the others
/// give theirs as if it were not there.
pub proof fn lemma_unusable_skipped(a: Seq<Seq<char>>, block: Seq<char>, b: Seq<Seq<char>>)
    requires
        bing_link(block).0.len() == 0 || bing_link(block).1.len() == 0,
    ensures
        block_results(a.push(block) + b) == block_results(a + b),
    decreases b.len(),
{
    if b.len() == 0 {
        assert(a.push(block) + b =~= a.push(block));
        assert(a + b =~= a);
        assert(a.push(block).drop_last() =~= a);
    } else {
        lemma_unusable_skipped(a, block, b.drop_last());
        assert((a.push(block) + b).drop_last() =~= a.push(block) + b.drop_last());
        assert((a + b).drop_last() =~= a + b.drop_last());
    }
}

/// A tracking link carries the encoded target between `u=a1` and the next `&`,
/// or the end: what was put there is what is taken out. A link that is no
/// tracking link leads where it says.
pub proof fn lemma_redirect(front: Seq<char>, target: Seq<u8>, tail: Seq<char>, plain: Seq<char>)
    requires
        text::contains_text(front, "/ck/a"@),
        text::find_in(
            front + "u=a1"@ + codec::base64_url_text(target) + tail,
            "u=a1"@,
        ) == Some(front.len() as int),
        tail.len() == 0 || tail[0] == '&',
        !text::contains_text(plain, "/ck/a"@),
    ensures
        redirect_payload(front + "u=a1"@ + codec::base64_url_text(target) + tail) == Some(
            codec::base64_url_text(target),
        ),
        redirect_target(front + "u=a1"@ + codec::base64_url_text(target) + tail)
            == codec::lossy_text(target),
        redirect_target(plain) == plain,
{
    let data = codec::base64_url_text(target);
    let url = front + "u=a1"@ + data + tail;
    let k = choose|k: int| text::occurs_at(front, "/ck/a"@, k);
    let n = "/ck/a"@.len() as int;
    assert(url.subrange(k, k + n) =~= front.subrange(k, k + n));
    assert(text::occurs_at(url, "/ck/a"@, k));
    let rest = data + tail;
    assert(url.skip(front.len() as int + "u=a1"@.len()) =~= rest);
    assert(after(url, "u=a1"@) == Some(rest));
    reveal_strlit("&");
    assert("&"@ =~= seq!['&']);
    assert(!data.contains('&')) by {
        assert forall|i: int| 0 <= i < data.len() implies data[i] != '&' by {
            codec::lemma_url_alphabet(target, i);
        }
    }
    if tail.len() == 0 {
        assert(rest =~= data);
        text::lemma_one_piece(data, '&');
    } else {
        assert(rest =~= data + "&"@ + tail.skip(1));
        lemma_cut(data, "&"@, tail.skip(1));
    }
    codec::lemma_base64_round_trip(target);
}

/// A response whose status is no success is a network error whatever it holds;
/// a page that holds a challenge asks for a proof; any other page gives its
/// results, and only such a one does.
pub proof fn lemma_response(
    code: u16,
    a: Seq<char>,
    b: Seq<char>,
    html: Seq<char>,
    max: int,
    r: Result<Vec<SearchResult>, SearchError>,
)
    requires
        100 <= code < 1000,
    ensures
        response_meaning(code, html, max, r) ==> (r matches Err(SearchError::Network(_)) <==> code
            < 200 || code >= 300),
        response_meaning(code, a + "CaptchaChallenge"@ + b, max, r) ==> !(r is Ok),
        response_meaning(code, a + " Bing captcha "@ + b, max, r) ==> !(r is Ok),
        response_meaning(code, html, max, r) && (r matches Err(SearchError::Captcha(_))) ==> exists|
            x: Seq<char>,
            y: Seq<char>,
        | html == #[trigger] (x + "CaptchaChallenge"@ + y) || html == x + " Bing captcha "@ + y,
        response_meaning(code, html, max, r) ==> (r matches Ok(v) ==> engine::result_views(v@)
            == page_results(html, max)),
{
    let p = "CaptchaChallenge"@;
    let q = " Bing captcha "@;
    let s = a + p + b;
    let t = a + q + b;
    let n = a.len() as int;
    assert(s.subrange(n, n + p.len()) =~= p);
    assert(text::occurs_at(s, p, n));
    assert(t.subrange(n, n + q.len()) =~= q);
    assert(text::occurs_at(t, q, n));
    if response_meaning(code, html, max, r) && (r matches Err(SearchError::Captcha(_))) {
        if text::contains_text(html, p) {
            let i = choose|i: int| text::occurs_at(html, p, i);
            assert(html =~= html.take(i) + p + html.skip(i + p.len()));
        } else {
            let i = choose|i: int| text::occurs_at(html, q, i);
            let (x, y) = (html.take(i), html.skip(i + q.len()));
            assert(html =~= x + q + y);
            let other = x + p + y;
            assert(html == other || html == x + q + y);
        }
    }
}

/// The opening of a tag is found where `<tag>` or `<tag ` stands first; where
/// neither does, where `<tag/` stands first; and nowhere else.
pub proof fn lemma_tag_open(s: Seq<char>, tag: Seq<char>)
    ensures
        ({
            let opens = |i: int|
                text::occurs_at(s, seq!['<'] + tag + seq!['>'], i) || text::occurs_at(
                    s,
                    seq!['<'] + tag + seq![' '],
                    i,
                );
            match tag_open(s, tag) {
                Some(p) => (opens(p) && forall|q: int| 0 <= q < p ==> !#[trigger] opens(q)) || (
                (forall|q: int| 0 <= q ==> !#[trigger] opens(q)) && text::occurs_at(
                    s,
                    seq!['<'] + tag + seq!['/'],
                    p,
                )),
                None => (forall|q: int| 0 <= q ==> !#[trigger] opens(q)) && !text::contains_text(
                    s,
                    seq!['<'] + tag + seq!['/'],
                ),
            }
        }),
{
    let start = seq!['<'] + tag;
    text::lemma_find_from(s, start + seq!['>'], 0);
    text::lemma_find_from(s, start + seq![' '], 0);
    text::lemma_find_from(s, start + seq!['/'], 0);
    text::lemma_contains_iff_found(s, start + seq!['/']);
}

/// The content of a tag is what follows the end of its opening, whatever
/// attributes stand in it.
pub proof fn lemma_tag_content(a: Seq<char>, tag: Seq<char>, attrs: Seq<char>, content: Seq<char>)
    requires
        !a.contains('<'),
        !tag.contains('>'),
        !attrs.contains('>'),
    ensures
        tag_content(a + (seq!['<'] + tag + seq![' '] + attrs + seq!['>'] + content), tag) == Some(
            content,
        ),
        tag_content(a + (seq!['<'] + tag + seq!['>'] + content), tag) == Some(content),
{
    reveal_strlit(">");
    assert(">"@ =~= seq!['>']);
    let n = a.len() as int;
    let with = seq!['<'] + tag + seq![' '] + attrs + seq!['>'] + content;
    let bare = seq!['<'] + tag + seq!['>'] + content;
    lemma_opening_found(a, tag, ' ', attrs + seq!['>'] + content);
    assert(with =~= seq!['<'] + tag + seq![' '] + (attrs + seq!['>'] + content));
    lemma_opening_found(a, tag, '>', content);
    assert((a + with).skip(n) =~= with);
    assert((a + bare).skip(n) =~= bare);
    let opening = seq!['<'] + tag + seq![' '] + attrs;
    assert(!opening.contains('>')) by {
        assert forall|i: int| 0 <= i < opening.len() implies opening[i] != '>' by {
            if 1 <= i < 1 + tag.len() {
                assert(opening[i] == tag[i - 1]);
                assert(tag.contains(tag[i - 1]));
            } else if i >= 2 + tag.len() {
                assert(opening[i] == attrs[i - 2 - tag.len()]);
                assert(attrs.contains(attrs[i - 2 - tag.len()]));
            }
        }
    }
    assert(with =~= opening + ">"@ + content);
    lemma_cut(opening, ">"@, content);
    let short = seq!['<'] + tag;
    assert(!short.contains('>')) by {
        assert forall|i: int| 0 <= i < short.len() implies short[i] != '>' by {
            if i >= 1 {
                assert(short[i] == tag[i - 1]);
                assert(tag.contains(tag[i - 1]));
            }
        }
    }
    assert(bare =~= short + ">"@ + content);
    lemma_cut(short, ">"@, content);
}

proof fn lemma_opening_found(a: Seq<char>, tag: Seq<char>, c: char, rest: Seq<char>)
    requires
        !a.contains('<'),
        c == ' ' || c == '>',
    ensures
        tag_open(a + (seq!['<'] + tag + seq![c] + rest), tag) == Some(a.len() as int),
{
    let p = seq!['<'] + tag + seq![c];
    let s = a + (p + rest);
    let n = a.len() as int;
    assert(s.subrange(n, n + p.len()) =~= p);
    assert(text::occurs_at(s, p, n));
    let exact = seq!['<'] + tag + seq!['>'];
    let with = seq!['<'] + tag + seq![' '];
    assert forall|j: int| 0 <= j < n implies !text::occurs_at(s, exact, j) && !text::occurs_at(
        s,
        with,
        j,
    ) by {
        assert(s[j] == a[j]);
        assert(a.contains(a[j]));
        if text::occurs_at(s, exact, j) {
            text::lemma_occurs_chars(s, exact, j, 0);
        }
        if text::occurs_at(s, with, j) {
            text::lemma_occurs_chars(s, with, j, 0);
        }
    }
    text::lemma_find_from(s, exact, 0);
    text::lemma_find_from(s, with, 0);
    text::lemma_found_at(s, p, n);
}

/// A value without quotes goes up to the white space, `>` or `/` behind it.
pub proof fn lemma_unquoted_value(v: Seq<char>, stop: char, rest: Seq<char>)
    requires
        forall|i: int|
            0 <= i < v.len() ==> !text::white(#[trigger] v[i]) && v[i] != '>' && v[i] != '/',
        text::white(stop) || stop == '>' || stop == '/',
    ensures
        unquoted(v + seq![stop] + rest) == v,
        unquoted(v) == v,
    decreases v.len(),
{
    let s = v + seq![stop] + rest;
    if v.len() > 0 {
        let tail = v.drop_first();
        assert forall|i: int| 0 <= i < tail.len() implies !text::white(#[trigger] tail[i]) && tail[i]
            != '>' && tail[i] != '/' by {
            assert(tail[i] == v[i + 1]);
        }
        lemma_unquoted_value(tail, stop, rest);
        assert(s.drop_first() =~= tail + seq![stop] + rest);
        assert(seq![v[0]] + tail =~= v);
        assert(s[0] == v[0]);
    } else {
        assert(s[0] == stop);
    }
}

/// An attribute without quotes is read whole, where its value is one that needs
/// none, and an attribute that is not there is empty.
pub proof fn lemma_unquoted_attr(s: Seq<char>, attr: Seq<char>, v: Seq<char>, stop: char, rest: Seq<char>)
    requires
        s == (attr + seq!['=']) + (v + seq![stop] + rest),
        v.len() > 0,
        v[0] != '"' && v[0] != '\'',
        forall|i: int|
            0 <= i < v.len() ==> !text::white(#[trigger] v[i]) && v[i] != '>' && v[i] != '/',
        text::white(stop) || stop == '>' || stop == '/',
    ensures
        attr_value(s, attr) == v,
{
    let name = attr + seq!['='];
    assert(s.subrange(0, name.len() as int) =~= name);
    assert(attr_at(s, attr, 0));
    let after = s.skip(attr.len() as int + 1);
    assert(after =~= v + seq![stop] + rest);
    assert(after[0] == v[0]);
    lemma_unquoted_value(v, stop, rest);
}

/// An attribute whose name does not stand in the text is empty.
pub proof fn lemma_no_attr(s: Seq<char>, attr: Seq<char>)
    requires
        !text::contains_text(s, attr + seq!['=']),
    ensures
        attr_value(s, attr).len() == 0,
{
    lemma_attr_from(s, attr, 0);
}

/// Without a caption the snippet is the first paragraph of the block.
pub proof fn lemma_plain_snippet(a: Seq<char>, s: Seq<char>, b: Seq<char>)
    requires
        !a.contains('<'),
        shown_whole(s),
        !text::contains_text(a + (seq!['<', 'p', '>'] + (engine::escaped(s) + "</p>"@ + b)), "b_caption"@),
    ensures
        block_result(a + (seq!['<', 'p', '>'] + (engine::escaped(s) + "</p>"@ + b))).snippet == s,
{
    reveal_strlit("p");
    reveal_strlit("</p>");
    let block = a + (seq!['<', 'p', '>'] + (engine::escaped(s) + "</p>"@ + b));
    text::lemma_contains_iff_found(block, "b_caption"@);
    let content = engine::escaped(s) + "</p>"@ + b;
    assert(seq!['<'] + "p"@ + seq!['>'] + content =~= seq!['<', 'p', '>'] + content);
    assert(!"p"@.contains('>'));
    lemma_tag_content(a, "p"@, Seq::empty(), content);
    lemma_escaped_stripped(s);
    lemma_cut(engine::escaped(s), "</p>"@, b);
    engine::lemma_escaped_read_back(s);
}

/// A query is asked for as it is: what stands behind the `=` of the URL decodes
/// to it, so that queries that differ have URLs that differ.
pub proof fn lemma_query_asked(query: Seq<char>, other: Seq<char>)
    ensures
        query_url(query).len() >= 30,
        query_url(query)[28] == 'q' && query_url(query)[29] == '=',
        query_url(query).take(30) == query_url(other).take(30),
        engine::percent_decoded(query_url(query).skip(30)) == vstd::utf8::encode_utf8(query),
        query_url(query) == query_url(other) ==> query == other,
{
    reveal_strlit("https://www.bing.com/search?q=");
    let a = vstd::utf8::encode_utf8(query);
    let b = vstd::utf8::encode_utf8(other);
    engine::lemma_percent_read_back(a);
    engine::lemma_percent_read_back(b);
    assert(query_url(query).skip(30) =~= engine::percent_encoded(a));
    assert(query_url(other).skip(30) =~= engine::percent_encoded(b));
    assert(query_url(query).take(30) =~= "https://www.bing.com/search?q="@);
    assert(query_url(other).take(30) =~= "https://www.bing.com/search?q="@);
    vstd::utf8::encode_utf8_decode_utf8(query);
    vstd::utf8::encode_utf8_decode_utf8(other);
}

/// A text without tags loses nothing but the white space around it, and what is
/// left never begins or ends with white space.
pub proof fn lemma_stripped(a: Seq<char>, s: Seq<char>, b: Seq<char>)
    requires
        s.len() > 0,
        !text::white(s[0]) && !text::white(s.last()),
        forall|i: int| 0 <= i < a.len() ==> text::white(#[trigger] a[i]),
        forall|i: int| 0 <= i < b.len() ==> text::white(#[trigger] b[i]),
        !s.contains('<') && !s.contains('>'),
    ensures
        stripped(a + s + b) == s,
{
    let t = a + s + b;
    assert forall|i: int| 0 <= i < t.len() implies (#[trigger] t[i]) != '<' && t[i] != '>' by {
        if i < a.len() {
            assert(text::white(a[i]));
        } else if i < a.len() + s.len() {
            assert(t[i] == s[i - a.len()]);
            assert(s.contains(s[i - a.len()]));
        } else {
            assert(t[i] == b[i - a.len() - s.len()]);
        }
    }
    lemma_no_tags(t);
    text::lemma_trimmed(a, s, b);
}

/// Whatever a text holds, stripped of its tags it begins and ends with no white
/// space, and holds no tag.
pub proof fn lemma_stripped_ends(s: Seq<char>)
    ensures
        stripped(s).len() > 0 ==> !text::white(stripped(s)[0]) && !text::white(stripped(s).last()),
        !stripped(s).contains('<') && !stripped(s).contains('>'),
{
    let t = outside_tags(s, false);
    lemma_no_brackets(s, false);
    text::lemma_trimmed_part(t);
    let r = stripped(s);
    assert forall|i: int| 0 <= i < r.len() implies r[i] != '<' && r[i] != '>' by {
        assert(t.contains(r[i]));
    }
}

/// A character of an attribute's name is one that neither ends the name nor the
/// tag: no white space, no quote, no bracket, no `/` and no `=`.
pub proof fn lemma_name_char(c: char)
    ensures
        text::white(c) ==> !name_char(c),
        !name_char('"') && !name_char('\'') && !name_char('<') && !name_char('>') && !name_char('/')
            && !name_char('='),
        'a' <= c <= 'z' || 'A' <= c <= 'Z' || '0' <= c <= '9' || c == '-' || c == '_' || c == ':'
            ==> name_char(c),
{
}

/// A quoted value ends at the next quote of the same kind, whatever else stands
/// in it.
pub proof fn lemma_closing(s: Seq<char>, p: int, e: int)
    requires
        0 <= p,
        p + 2 <= e < s.len(),
        s[p] == '=',
        s[p + 1] == '"' || s[p + 1] == '\'',
        s[e] == s[p + 1],
        forall|k: int| p + 2 <= k < e ==> #[trigger] s[k] != s[p + 1],
    ensures
        closing_quote(s, p) == Some(e),
{
    let w = seq![s[p + 1]];
    text::lemma_find_from(s, w, p + 2);
    assert(s.subrange(e, e + 1) =~= w);
    assert(text::occurs_at(s, w, e));
    assert forall|k: int| p + 2 <= k < e implies !#[trigger] text::occurs_at(s, w, k) by {
        assert(s.subrange(k, k + 1)[0] == s[k]);
        assert(w[0] == s[p + 1]);
    }
}

/// Without a `=`, without a quote behind it, or without another quote of its
/// kind there is no quoted value.
pub proof fn lemma_not_closing(s: Seq<char>, p: int)
    requires
        0 <= p,
        p + 1 < s.len(),
        s[p] != '=' || (s[p + 1] != '"' && s[p + 1] != '\'') || forall|k: int|
            p + 2 <= k < s.len() ==> #[trigger] s[k] != s[p + 1],
    ensures
        closing_quote(s, p) is None,
{
    let w = seq![s[p + 1]];
    text::lemma_find_from(s, w, p + 2);
    if let Some(i) = text::find_from(s, w, p + 2) {
        assert(text::occurs_at(s, w, i));
        assert(s.subrange(i, i + 1)[0] == s[i]);
        assert(w[0] == s[p + 1]);
    }
}

/// A good response without a challenge gives the results of the page, and a
/// response with a challenge says so.
pub proof fn lemma_response_told(
    code: u16,
    html: Seq<char>,
    max: int,
    r: Result<Vec<SearchResult>, SearchError>,
)
    requires
        200 <= code < 300,
        response_meaning(code, html, max, r),
    ensures
        !captcha(html) ==> (r matches Ok(v) && engine::result_views(v@) == page_results(html, max)),
        captcha(html) ==> (r matches Err(SearchError::Captcha(m)) && m@
            == "Bing CAPTCHA challenge detected"@),
{
}

} // verus!
