//! What search engines share: results, errors, and the two encodings of text.
use vstd::prelude::*;
use vstd::string::*;

use crate::json;
use crate::json::{Json, JsonView};
use crate::text;

verus! {

/// One result of a search.
pub struct SearchResult {
    pub title: String,
    pub url: String,
    pub snippet: String,
    /// The name of the engine that gave the result.
    pub source: String,
    pub extra: Option<Json>,
}

/// What a search result says.
pub struct SearchResultView {
    pub title: Seq<char>,
    pub url: Seq<char>,
    pub snippet: Seq<char>,
    pub source: Seq<char>,
    pub extra: Option<JsonView>,
}

impl View for SearchResult {
    type V = SearchResultView;

    open spec fn view(&self) -> SearchResultView {
        SearchResultView {
            title: self.title@,
            url: self.url@,
            snippet: self.snippet@,
            source: self.source@,
            extra: match self.extra {
                Some(j) => Some(json::json_view(j)),
                None => None,
            },
        }
    }
}

/// What several search results say.
pub open spec fn result_views(v: Seq<SearchResult>) -> Seq<SearchResultView> {
    v.map_values(|r: SearchResult| r@)
}

/// Why a search gave no results.
#[derive(Debug, PartialEq, Eq)]
pub enum SearchError {
    /// The engine could not be reached, or answered with an error status.
    Network(String),
    /// The engine asks for a proof that the client is no robot.
    Captcha(String),
}

/// The character that a named or numbered HTML entity stands for, where the
/// entity is one that result pages use.
pub open spec fn entity(name: Seq<char>) -> Option<char> {
    if name == "amp"@ {
        Some('&')
    } else if name == "lt"@ {
        Some('<')
    } else if name == "gt"@ {
        Some('>')
    } else if name == "quot"@ {
        Some('"')
    } else if name == "apos"@ || name == "#39"@ {
        Some('\'')
    } else if name == "nbsp"@ {
        Some(' ')
    } else {
        None
    }
}

/// A text with its HTML entities replaced by what they stand for. An ampersand
/// that begins no known entity stays as it is.
pub open spec fn entities_decoded(s: Seq<char>) -> Seq<char>
    decreases s.len(),
{
    if s.len() == 0 {
        Seq::empty()
    } else if s[0] == '&' {
        match text::find_in(s, seq![';']) {
            Some(e) => if 1 <= e < s.len() && entity(s.subrange(1, e)) is Some {
                seq![entity(s.subrange(1, e))->0] + entities_decoded(s.skip(e + 1))
            } else {
                seq!['&'] + entities_decoded(s.drop_first())
            },
            None => seq!['&'] + entities_decoded(s.drop_first()),
        }
    } else {
        seq![s[0]] + entities_decoded(s.drop_first())
    }
}

fn entity_of(name: &str) -> (r: Option<char>)
    ensures
        r == entity(name@),
{
    if text::same(name, "amp") {
        Some('&')
    } else if text::same(name, "lt") {
        Some('<')
    } else if text::same(name, "gt") {
        Some('>')
    } else if text::same(name, "quot") {
        Some('"')
    } else if text::same(name, "apos") || text::same(name, "#39") {
        Some('\'')
    } else if text::same(name, "nbsp") {
        Some(' ')
    } else {
        None
    }
}

/// A text with its HTML entities replaced by what they stand for.
pub fn decode_html_entities(s: &str) -> (r: String)
    ensures
        r@ == entities_decoded(s@),
{
    let v: Vec<char> = text::chars_of(s);
    let semicolon: Vec<char> = vec![';'];
    let mut r: String = String::new();
    let mut i: usize = 0;
    assert(v@.skip(0) =~= v@);
    assert(semicolon@ =~= seq![';']);
    while i < v.len()
        invariant
            i <= v.len(),
            v@ == s@,
            semicolon@ == seq![';'],
            r@ + entities_decoded(v@.skip(i as int)) == entities_decoded(s@),
        decreases v.len() - i,
    {
        let ghost rest = v@.skip(i as int);
        let ghost before = r@;
        let mut next: usize = i + 1;
        let mut c: char = v[i];
        proof {
            assert(rest.drop_first() =~= v@.skip(i + 1));
            text::lemma_find_skip(v@, semicolon@, i as int, 0);
            text::lemma_find_from(rest, semicolon@, 0);
        }
        if c == '&' {
            match text::search(&v, &semicolon, i) {
                Some(e) => {
                    proof {
                        assert(rest.subrange(e - i, e - i + 1)[0] == rest[e - i]);
                        assert(rest[0] == '&');
                        assert(e > i);
                    }
                    let name: String = text::text_of(&v, i + 1, e);
                    assert(name@ =~= rest.subrange(1, e - i));
                    match entity_of(name.as_str()) {
                        Some(d) => {
                            c = d;
                            next = e + 1;
                            assert(rest.skip(e - i + 1) =~= v@.skip(e + 1));
                        },
                        None => {},
                    }
                },
                None => {},
            }
        }
        proof {
            assert(entities_decoded(rest) =~= seq![c] + entities_decoded(v@.skip(next as int)));
            assert(before + (seq![c] + entities_decoded(v@.skip(next as int))) =~= before.push(c)
                + entities_decoded(v@.skip(next as int)));
        }
        r.push(c);
        i = next;
    }
    assert(v@.skip(i as int) =~= Seq::empty());
    r
}

/// A byte that stands for itself in a percent-encoded query.
pub open spec fn unreserved(b: u8) -> bool {
    ||| 0x30 <= b <= 0x39
    ||| 0x41 <= b <= 0x5a
    ||| 0x61 <= b <= 0x7a
    ||| b == 0x2d
    ||| b == 0x2e
    ||| b == 0x5f
    ||| b == 0x7e
}

/// A hexadecimal digit.
pub open spec fn hex_digit(d: int) -> char {
    if d < 10 {
        ((0x30 + d) as u32) as char
    } else {
        ((0x41 + d - 10) as u32) as char
    }
}

/// Bytes in percent-encoding.
pub open spec fn percent_encoded(b: Seq<u8>) -> Seq<char>
    decreases b.len(),
{
    if b.len() == 0 {
        Seq::empty()
    } else {
        percent_encoded(b.drop_last()) + if unreserved(b.last()) {
            seq![b.last() as char]
        } else {
            seq!['%', hex_digit(b.last() as int / 16), hex_digit(b.last() as int % 16)]
        }
    }
}

fn hex_char(d: u8) -> (r: char)
    requires
        d < 16,
    ensures
        r == hex_digit(d as int),
{
    if d < 10 {
        (0x30 + d) as char
    } else {
        (0x41 + (d - 10)) as char
    }
}

/// A query in percent-encoding: the bytes of its UTF-8 form, each but letters,
/// digits and `-._~` as `%` and two hexadecimal digits.
pub fn url_encode(s: &str) -> (r: String)
    ensures
        r@ == percent_encoded(vstd::utf8::encode_utf8(s@)),
{
    let b: Vec<u8> = s.as_bytes_vec();
    let mut r: String = String::new();
    let mut i: usize = 0;
    while i < b.len()
        invariant
            i <= b.len(),
            r@ == percent_encoded(b@.take(i as int)),
        decreases b.len() - i,
    {
        let x: u8 = b[i];
        proof {
            let now = b@.take(i + 1);
            assert(now.drop_last() =~= b@.take(i as int));
            assert(now.last() == x);
        }
        let ghost before = r@;
        if (0x30 <= x && x <= 0x39) || (0x41 <= x && x <= 0x5a) || (0x61 <= x && x <= 0x7a) || x
            == 0x2d || x == 0x2e || x == 0x5f || x == 0x7e {
            r.push(x as char);
            assert(r@ =~= before + seq![x as char]);
        } else {
            r.push('%');
            r.push(hex_char(x / 16));
            r.push(hex_char(x % 16));
            assert(r@ =~= before + seq!['%', hex_digit(x as int / 16), hex_digit(x as int % 16)]);
        }
        i = i + 1;
    }
    assert(b@.take(i as int) =~= b@);
    r
}

/// How a character is written in HTML text: those that have a meaning there by
/// their entities, any other as it is.
pub open spec fn escaped_char(c: char) -> Seq<char> {
    if c == '&' {
        seq!['&', 'a', 'm', 'p', ';']
    } else if c == '<' {
        seq!['&', 'l', 't', ';']
    } else if c == '>' {
        seq!['&', 'g', 't', ';']
    } else if c == '"' {
        seq!['&', 'q', 'u', 'o', 't', ';']
    } else if c == '\'' {
        seq!['&', '#', '3', '9', ';']
    } else {
        seq![c]
    }
}

/// How a text is written in HTML.
pub open spec fn escaped(s: Seq<char>) -> Seq<char>
    decreases s.len(),
{
    if s.len() == 0 {
        Seq::empty()
    } else {
        escaped_char(s[0]) + escaped(s.drop_first())
    }
}

/// A known entity gives the character that it stands for, and what follows it
/// is read on.
pub proof fn lemma_entity_decoded(rest: Seq<char>)
    ensures
        entities_decoded("&amp;"@ + rest) == seq!['&'] + entities_decoded(rest),
        entities_decoded("&lt;"@ + rest) == seq!['<'] + entities_decoded(rest),
        entities_decoded("&gt;"@ + rest) == seq!['>'] + entities_decoded(rest),
        entities_decoded("&quot;"@ + rest) == seq!['"'] + entities_decoded(rest),
        entities_decoded("&apos;"@ + rest) == seq!['\''] + entities_decoded(rest),
        entities_decoded("&#39;"@ + rest) == seq!['\''] + entities_decoded(rest),
        entities_decoded("&nbsp;"@ + rest) == seq![' '] + entities_decoded(rest),
{
    lemma_entity_names();
    reveal_strlit("amp");
    reveal_strlit("lt");
    reveal_strlit("gt");
    reveal_strlit("quot");
    reveal_strlit("apos");
    reveal_strlit("#39");
    reveal_strlit("nbsp");
    reveal_strlit("&amp;");
    reveal_strlit("&lt;");
    reveal_strlit("&gt;");
    reveal_strlit("&quot;");
    reveal_strlit("&apos;");
    reveal_strlit("&#39;");
    reveal_strlit("&nbsp;");
    lemma_read_entity("amp"@, rest);
    assert("&amp;"@ =~= seq!['&'] + "amp"@ + seq![';']);
    lemma_read_entity("lt"@, rest);
    assert("&lt;"@ =~= seq!['&'] + "lt"@ + seq![';']);
    lemma_read_entity("gt"@, rest);
    assert("&gt;"@ =~= seq!['&'] + "gt"@ + seq![';']);
    lemma_read_entity("quot"@, rest);
    assert("&quot;"@ =~= seq!['&'] + "quot"@ + seq![';']);
    lemma_read_entity("apos"@, rest);
    assert("&apos;"@ =~= seq!['&'] + "apos"@ + seq![';']);
    lemma_read_entity("#39"@, rest);
    assert("&#39;"@ =~= seq!['&'] + "#39"@ + seq![';']);
    lemma_read_entity("nbsp"@, rest);
    assert("&nbsp;"@ =~= seq!['&'] + "nbsp"@ + seq![';']);
}

proof fn lemma_entity_names()
    ensures
        entity("amp"@) == Some('&'),
        entity("lt"@) == Some('<'),
        entity("gt"@) == Some('>'),
        entity("quot"@) == Some('"'),
        entity("apos"@) == Some('\''),
        entity("#39"@) == Some('\''),
        entity("nbsp"@) == Some(' '),
{
    reveal_strlit("amp");
    reveal_strlit("lt");
    reveal_strlit("gt");
    reveal_strlit("quot");
    reveal_strlit("apos");
    reveal_strlit("#39");
    reveal_strlit("nbsp");
    assert("amp"@[0] == 'a' && "lt"@[0] == 'l' && "gt"@[0] == 'g' && "quot"@[0] == 'q');
    assert("apos"@[0] == 'a' && "apos"@.len() == 4 && "amp"@.len() == 3 && "#39"@[0] == '#');
    assert("nbsp"@[0] == 'n');
}

proof fn lemma_read_entity(name: Seq<char>, rest: Seq<char>)
    requires
        !name.contains(';'),
    ensures
        ({
            let s = seq!['&'] + name + seq![';'] + rest;
            match entity(name) {
                Some(c) => entities_decoded(s) == seq![c] + entities_decoded(rest),
                None => entities_decoded(s) == seq!['&'] + entities_decoded(
                    name + seq![';'] + rest,
                ),
            }
        }),
{
    let a = seq!['&'] + name;
    let s = a + seq![';'] + rest;
    assert(!a.contains(';')) by {
        assert forall|i: int| 0 <= i < a.len() implies a[i] != ';' by {
            if i > 0 {
                assert(a[i] == name[i - 1]);
                assert(name.contains(name[i - 1]));
            }
        }
    }
    text::lemma_find_first(a, ';', rest);
    assert(s.subrange(1, a.len() as int) =~= name);
    assert(s.skip(a.len() as int + 1) =~= rest);
    assert(s.drop_first() =~= name + seq![';'] + rest);
}

/// What begins like an entity and is none that is known stays as it stands.
pub proof fn lemma_other_entity(name: Seq<char>, rest: Seq<char>)
    requires
        !name.contains(';'),
        name != "amp"@ && name != "lt"@ && name != "gt"@ && name != "quot"@ && name != "apos"@ && name
            != "#39"@ && name != "nbsp"@,
    ensures
        entities_decoded(seq!['&'] + name + seq![';'] + rest) == seq!['&'] + entities_decoded(
            name + seq![';'] + rest,
        ),
{
    lemma_read_entity(name, rest);
}

/// A text without an ampersand has no entities, and stays as it is.
pub proof fn lemma_no_entities(s: Seq<char>)
    requires
        !s.contains('&'),
    ensures
        entities_decoded(s) == s,
    decreases s.len(),
{
    if s.len() > 0 {
        assert(s.contains(s[0]));
        let rest = s.drop_first();
        assert(!rest.contains('&')) by {
            assert forall|i: int| 0 <= i < rest.len() implies rest[i] != '&' by {
                assert(rest[i] == s[i + 1]);
                assert(s.contains(s[i + 1]));
            }
        }
        lemma_no_entities(rest);
        assert(seq![s[0]] + rest =~= s);
    }
}

/// A text that was written in HTML is read back as it was.
pub proof fn lemma_escaped_read_back(s: Seq<char>)
    ensures
        entities_decoded(escaped(s)) == s,
    decreases s.len(),
{
    if s.len() > 0 {
        let rest = s.drop_first();
        let tail = escaped(rest);
        lemma_escaped_read_back(rest);
        lemma_entity_names();
        reveal_strlit("amp");
        reveal_strlit("lt");
        reveal_strlit("gt");
        reveal_strlit("quot");
        reveal_strlit("#39");
        let c = s[0];
        assert(seq![c] + rest =~= s);
        if c == '&' {
            lemma_read_entity("amp"@, tail);
            assert(escaped(s) =~= seq!['&'] + "amp"@ + seq![';'] + tail);
        } else if c == '<' {
            lemma_read_entity("lt"@, tail);
            assert(escaped(s) =~= seq!['&'] + "lt"@ + seq![';'] + tail);
        } else if c == '>' {
            lemma_read_entity("gt"@, tail);
            assert(escaped(s) =~= seq!['&'] + "gt"@ + seq![';'] + tail);
        } else if c == '"' {
            lemma_read_entity("quot"@, tail);
            assert(escaped(s) =~= seq!['&'] + "quot"@ + seq![';'] + tail);
        } else if c == '\'' {
            lemma_read_entity("#39"@, tail);
            assert(escaped(s) =~= seq!['&'] + "#39"@ + seq![';'] + tail);
        } else {
            assert(escaped(s).drop_first() =~= tail);
            assert(escaped(s)[0] == c);
        }
    }
}

/// A text that was written in HTML holds no character that has a meaning there
/// but ampersands, and begins and ends with white space only where the text does.
pub proof fn lemma_escaped_plain(s: Seq<char>)
    ensures
        forall|i: int|
            0 <= i < escaped(s).len() ==> (#[trigger] escaped(s)[i]) != '<' && escaped(s)[i] != '>'
                && escaped(s)[i] != '"' && escaped(s)[i] != '\'',
        escaped(s).len() >= s.len(),
        s.len() > 0 ==> (text::white(escaped(s)[0]) ==> text::white(s[0])),
        s.len() > 0 ==> (text::white(escaped(s).last()) ==> text::white(s.last())),
    decreases s.len(),
{
    if s.len() > 0 {
        let rest = s.drop_first();
        let head = escaped_char(s[0]);
        let tail = escaped(rest);
        lemma_escaped_plain(rest);
        let all = head + tail;
        assert forall|i: int| 0 <= i < all.len() implies (#[trigger] all[i]) != '<' && all[i] != '>'
            && all[i] != '"' && all[i] != '\'' by {
            if i >= head.len() {
                assert(all[i] == tail[i - head.len()]);
            }
        }
        assert(all[0] == head[0]);
        if rest.len() == 0 {
            assert(tail.len() == 0);
            assert(all.last() == head.last());
        } else {
            assert(all.last() == tail.last());
            assert(s.last() == rest.last());
        }
    }
}

/// The value of a hexadecimal digit.
pub open spec fn hex_value(c: char) -> int {
    if '0' <= c <= '9' {
        c as int - '0' as int
    } else if 'A' <= c <= 'F' {
        c as int - 'A' as int + 10
    } else {
        c as int - 'a' as int + 10
    }
}

/// The bytes that a text in percent-encoding stands for.
pub open spec fn percent_decoded(s: Seq<char>) -> Seq<u8>
    decreases s.len(),
{
    if s.len() == 0 {
        Seq::empty()
    } else if s[0] == '%' && s.len() >= 3 {
        seq![(hex_value(s[1]) * 16 + hex_value(s[2])) as u8] + percent_decoded(s.skip(3))
    } else {
        seq![s[0] as u8] + percent_decoded(s.drop_first())
    }
}

proof fn lemma_percent_front(x: u8, rest: Seq<u8>)
    ensures
        percent_encoded(seq![x] + rest) == percent_encoded(seq![x]) + percent_encoded(rest),
    decreases rest.len(),
{
    let b = seq![x] + rest;
    if rest.len() == 0 {
        assert(b =~= seq![x]);
        assert(percent_encoded(seq![x]) + percent_encoded(rest) =~= percent_encoded(seq![x]));
    } else {
        assert(b.drop_last() =~= seq![x] + rest.drop_last());
        lemma_percent_front(x, rest.drop_last());
        assert(percent_encoded(b) =~= percent_encoded(seq![x]) + percent_encoded(rest));
    }
}

/// Percent-encoding loses nothing: read back, it gives the bytes that were
/// encoded, so that bytes that differ are encoded differently. It is written in
/// letters, digits, `-`, `.`, `_`, `~` and `%` alone.
pub proof fn lemma_percent_read_back(b: Seq<u8>)
    ensures
        percent_decoded(percent_encoded(b)) == b,
        forall|i: int|
            0 <= i < percent_encoded(b).len() ==> {
                let c = #[trigger] percent_encoded(b)[i];
                ('0' <= c <= '9') || ('A' <= c <= 'Z') || ('a' <= c <= 'z') || c == '-' || c == '.' || c
                    == '_' || c == '~' || c == '%'
            },
    decreases b.len(),
{
    if b.len() > 0 {
        let x = b[0];
        let rest = b.drop_first();
        let tail = percent_encoded(rest);
        assert(seq![x] + rest =~= b);
        lemma_percent_read_back(rest);
        lemma_percent_front(x, rest);
        assert(seq![x].drop_last() =~= Seq::empty());
        assert(percent_encoded(Seq::<u8>::empty()) =~= Seq::<char>::empty());
        assert(seq![x].last() == x);
        let one = percent_encoded(seq![x]);
        let all = percent_encoded(b);
        assert(all == one + tail);
        if unreserved(x) {
            assert(one =~= seq![x as char]);
            assert(all.drop_first() =~= tail);
            assert(all[0] == x as char);
        } else {
            let hi = hex_digit(x as int / 16);
            let lo = hex_digit(x as int % 16);
            assert(one =~= seq!['%', hi, lo]);
            assert(all.skip(3) =~= tail);
            assert(all[0] == '%' && all[1] == hi && all[2] == lo);
            assert(hex_value(hi) == x as int / 16);
            assert(hex_value(lo) == x as int % 16);
        }
        assert forall|i: int| 0 <= i < all.len() implies {
            let c = #[trigger] all[i];
            ('0' <= c <= '9') || ('A' <= c <= 'Z') || ('a' <= c <= 'z') || c == '-' || c == '.' || c
                == '_' || c == '~' || c == '%'
        } by {
            if i >= one.len() {
                assert(all[i] == tail[i - one.len()]);
            }
        }
    }
}

/// Behind every `%` of a percent-encoding stand two hexadecimal digits, those
/// beyond nine in upper case.
pub proof fn lemma_percent_form(b: Seq<u8>, i: int)
    requires
        0 <= i < percent_encoded(b).len(),
    ensures
        percent_encoded(b)[i] == '%' ==> {
            &&& i + 2 < percent_encoded(b).len()
            &&& forall|k: int|
                i < k <= i + 2 ==> ('0' <= #[trigger] percent_encoded(b)[k] <= '9' || 'A'
                    <= percent_encoded(b)[k] <= 'F')
        },
    decreases b.len(),
{
    let front = percent_encoded(b.drop_last());
    if i < front.len() {
        lemma_percent_form(b.drop_last(), i);
        assert forall|k: int| i < k < front.len() implies #[trigger] percent_encoded(b)[k]
            == front[k] by {}
    }
}

/// Letters, digits, `-`, `.`, `_` and `~` stand for themselves in a
/// percent-encoding, and no other byte does.
pub proof fn lemma_percent_plain(b: u8)
    ensures
        ({
            let c = b as char;
            let plain = ('0' <= c <= '9') || ('A' <= c <= 'Z') || ('a' <= c <= 'z') || c == '-' || c
                == '.' || c == '_' || c == '~';
            &&& plain ==> percent_encoded(seq![b]) == seq![c]
            &&& !plain ==> percent_encoded(seq![b]).len() == 3
        }),
{
    assert(seq![b].drop_last() =~= Seq::empty());
    assert(percent_encoded(Seq::<u8>::empty()) =~= Seq::<char>::empty());
    assert(seq![b].last() == b);
    assert(percent_encoded(seq![b]) =~= if unreserved(b) {
        seq![b as char]
    } else {
        seq!['%', hex_digit(b as int / 16), hex_digit(b as int % 16)]
    });
}

/// A text without a semicolon has no entities either: its ampersands stay.
pub proof fn lemma_no_semicolon(s: Seq<char>)
    requires
        !s.contains(';'),
    ensures
        entities_decoded(s) == s,
    decreases s.len(),
{
    if s.len() > 0 {
        let rest = s.drop_first();
        assert(!rest.contains(';')) by {
            assert forall|i: int| 0 <= i < rest.len() implies rest[i] != ';' by {
                assert(rest[i] == s[i + 1]);
                assert(s.contains(s[i + 1]));
            }
        }
        lemma_no_semicolon(rest);
        let p = seq![';'];
        text::lemma_find_from(s, p, 0);
        if let Some(e) = text::find_in(s, p) {
            assert(text::occurs_at(s, p, e));
            assert(s.subrange(e, e + 1)[0] == s[e]);
            assert(p[0] == ';');
            assert(s.contains(s[e]));
        }
        assert(seq![s[0]] + rest =~= s);
    }
}

} // verus!
