//! URLs as scripts see them: the objects that `new URL(..)` gives, and
//! `window.location`.
use vstd::prelude::*;
use vstd::string::*;

use crate::codec;
use crate::text;

verus! {

/// The parts of a URL.
pub struct UrlParts {
    /// The whole URL, serialized.
    pub href: String,
    /// The origin in ASCII.
    pub origin: String,
    /// The origin with its host in Unicode.
    pub unicode_origin: String,
    pub scheme: String,
    /// The host, serialized.
    pub host: Option<String>,
    /// The host as it stands in the URL.
    pub host_str: Option<String>,
    pub path: String,
    pub query: Option<String>,
    pub fragment: Option<String>,
    pub port: Option<u16>,
    pub username: String,
    pub password: Option<String>,
}

/// What the parts of a URL say.
pub struct UrlPartsView {
    pub href: Seq<char>,
    pub origin: Seq<char>,
    pub unicode_origin: Seq<char>,
    pub scheme: Seq<char>,
    pub host: Option<Seq<char>>,
    pub host_str: Option<Seq<char>>,
    pub path: Seq<char>,
    pub query: Option<Seq<char>>,
    pub fragment: Option<Seq<char>>,
    pub port: Option<u16>,
    pub username: Seq<char>,
    pub password: Option<Seq<char>>,
}

impl View for UrlParts {
    type V = UrlPartsView;

    open spec fn view(&self) -> UrlPartsView {
        UrlPartsView {
            href: self.href@,
            origin: self.origin@,
            unicode_origin: self.unicode_origin@,
            scheme: self.scheme@,
            host: codec::text_view(self.host),
            host_str: codec::text_view(self.host_str),
            path: self.path@,
            query: codec::text_view(self.query),
            fragment: codec::text_view(self.fragment),
            port: self.port,
            username: self.username@,
            password: codec::text_view(self.password),
        }
    }
}

/// What the parts of a URL say, if there are any.
pub open spec fn parts_view(p: Option<UrlParts>) -> Option<UrlPartsView> {
    match p {
        Some(u) => Some(u@),
        None => None,
    }
}

/// What `Url::parse` of the `url` crate makes of a text.
pub uninterp spec fn parsed_url(s: Seq<char>) -> Option<UrlPartsView>;

/// `Url::parse` of the `url` crate, and the accessors of what it gives. A text
/// is a URL or not, and has its parts, by the text alone.
#[verifier::external_body]
pub(crate) fn parse_url(s: &str) -> (r: Option<UrlParts>)
    ensures
        parts_view(r) == parsed_url(s@),
{
    let u = url::Url::parse(s).ok()?;
    Some(UrlParts {
        href: u.to_string(),
        origin: u.origin().ascii_serialization(),
        unicode_origin: u.origin().unicode_serialization(),
        scheme: u.scheme().to_string(),
        host: u.host().map(|h| h.to_string()),
        host_str: u.host_str().map(String::from),
        path: u.path().to_string(),
        query: u.query().map(String::from),
        fragment: u.fragment().map(String::from),
        port: u.port(),
        username: u.username().to_string(),
        password: u.password().map(String::from),
    })
}

/// The properties of the object that `new URL(..)` gives.
pub struct UrlRecord {
    pub href: String,
    pub origin: String,
    pub protocol: String,
    pub host: String,
    pub hostname: String,
    pub pathname: String,
    pub search: String,
    pub hash: String,
    pub port: String,
    pub username: String,
    pub password: String,
}

/// What the properties of a URL object say.
pub struct UrlRecordView {
    pub href: Seq<char>,
    pub origin: Seq<char>,
    pub protocol: Seq<char>,
    pub host: Seq<char>,
    pub hostname: Seq<char>,
    pub pathname: Seq<char>,
    pub search: Seq<char>,
    pub hash: Seq<char>,
    pub port: Seq<char>,
    pub username: Seq<char>,
    pub password: Seq<char>,
}

impl View for UrlRecord {
    type V = UrlRecordView;

    open spec fn view(&self) -> UrlRecordView {
        UrlRecordView {
            href: self.href@,
            origin: self.origin@,
            protocol: self.protocol@,
            host: self.host@,
            hostname: self.hostname@,
            pathname: self.pathname@,
            search: self.search@,
            hash: self.hash@,
            port: self.port@,
            username: self.username@,
            password: self.password@,
        }
    }
}

/// A text, or the empty one in place of none.
pub open spec fn or_empty(t: Option<Seq<char>>) -> Seq<char> {
    match t {
        Some(s) => s,
        None => Seq::empty(),
    }
}

/// A text with a mark in front, or the empty one in place of none.
pub open spec fn marked(mark: Seq<char>, t: Option<Seq<char>>) -> Seq<char> {
    match t {
        Some(s) => mark + s,
        None => Seq::empty(),
    }
}

/// The properties of a URL object. A text that is no URL is its own `href` and
/// `origin`, and the other properties are empty.
pub open spec fn record_of(s: Seq<char>, parts: Option<UrlPartsView>) -> UrlRecordView {
    match parts {
        Some(u) => UrlRecordView {
            href: u.href,
            origin: u.origin,
            protocol: u.scheme + ":"@,
            host: or_empty(u.host),
            hostname: or_empty(u.host),
            pathname: u.path,
            search: marked("?"@, u.query),
            hash: marked("#"@, u.fragment),
            port: match u.port {
                Some(p) => text::decimal(p as nat),
                None => Seq::empty(),
            },
            username: u.username,
            password: or_empty(u.password),
        },
        None => UrlRecordView {
            href: s,
            origin: s,
            protocol: Seq::empty(),
            host: Seq::empty(),
            hostname: Seq::empty(),
            pathname: Seq::empty(),
            search: Seq::empty(),
            hash: Seq::empty(),
            port: Seq::empty(),
            username: Seq::empty(),
            password: Seq::empty(),
        },
    }
}

fn unwrap_or_empty(t: &Option<String>) -> (r: String)
    ensures
        r@ == or_empty(codec::text_view(*t)),
{
    match t {
        Some(s) => s.clone(),
        None => String::new(),
    }
}

fn mark(m: &str, t: &Option<String>) -> (r: String)
    ensures
        r@ == marked(m@, codec::text_view(*t)),
{
    match t {
        Some(s) => text::concat(m, s.as_str()),
        None => String::new(),
    }
}

/// The properties of the object that `new URL(s)` gives, where `parts` are
/// what the text was parsed into.
pub fn url_record_of(s: &str, parts: Option<UrlParts>) -> (r: UrlRecord)
    ensures
        r@ == record_of(s@, parts_view(parts)),
{
    match parts {
        Some(u) => UrlRecord {
            protocol: text::concat(u.scheme.as_str(), ":"),
            host: unwrap_or_empty(&u.host),
            hostname: unwrap_or_empty(&u.host),
            search: mark("?", &u.query),
            hash: mark("#", &u.fragment),
            port: match u.port {
                Some(p) => text::decimal_text(p as u128),
                None => String::new(),
            },
            password: unwrap_or_empty(&u.password),
            href: u.href,
            origin: u.origin,
            pathname: u.path,
            username: u.username,
        },
        None => UrlRecord {
            href: s.to_owned(),
            origin: s.to_owned(),
            protocol: String::new(),
            host: String::new(),
            hostname: String::new(),
            pathname: String::new(),
            search: String::new(),
            hash: String::new(),
            port: String::new(),
            username: String::new(),
            password: String::new(),
        },
    }
}

/// The properties of the object that `new URL(s)` gives.
pub fn url_record(s: &str) -> (r: UrlRecord)
    ensures
        r@ == record_of(s@, parsed_url(s@)),
{
    url_record_of(s, parse_url(s))
}

/// The properties of `window.location`.
pub struct Location {
    pub href: String,
    pub origin: String,
    pub protocol: String,
    pub hostname: String,
    pub pathname: String,
}

/// What the properties of `window.location` say.
pub struct LocationView {
    pub href: Seq<char>,
    pub origin: Seq<char>,
    pub protocol: Seq<char>,
    pub hostname: Seq<char>,
    pub pathname: Seq<char>,
}

impl View for Location {
    type V = LocationView;

    open spec fn view(&self) -> LocationView {
        LocationView {
            href: self.href@,
            origin: self.origin@,
            protocol: self.protocol@,
            hostname: self.hostname@,
            pathname: self.pathname@,
        }
    }
}

/// The location of a page: its `href` is the page's URL as it was given, and
/// the other properties are empty where that is no URL.
pub open spec fn location_view(page: Seq<char>, parts: Option<UrlPartsView>) -> LocationView {
    match parts {
        Some(u) => LocationView {
            href: page,
            origin: u.origin,
            protocol: u.scheme + ":"@,
            hostname: or_empty(u.host_str),
            pathname: u.path,
        },
        None => LocationView {
            href: page,
            origin: Seq::empty(),
            protocol: Seq::empty(),
            hostname: Seq::empty(),
            pathname: Seq::empty(),
        },
    }
}

/// The location of a page, where `parts` are what its URL was parsed into.
pub fn location_of(page_url: &str, parts: Option<UrlParts>) -> (r: Location)
    ensures
        r@ == location_view(page_url@, parts_view(parts)),
{
    match parts {
        Some(u) => Location {
            href: page_url.to_owned(),
            protocol: text::concat(u.scheme.as_str(), ":"),
            hostname: unwrap_or_empty(&u.host_str),
            origin: u.origin,
            pathname: u.path,
        },
        None => Location {
            href: page_url.to_owned(),
            origin: String::new(),
            protocol: String::new(),
            hostname: String::new(),
            pathname: String::new(),
        },
    }
}

/// The location of a page.
pub fn location(page_url: &str) -> (r: Location)
    ensures
        r@ == location_view(page_url@, parsed_url(page_url@)),
{
    location_of(page_url, parse_url(page_url))
}

/// The properties of a URL object are the parts of the URL, each under its own
/// name: a scheme ends in a colon, a query begins with `?` and a fragment with
/// `#` where there is one, and a port is written in decimal.
pub proof fn lemma_record(s: Seq<char>, u: UrlPartsView)
    ensures
        ({
            let r = record_of(s, Some(u));
            &&& r.href == u.href
            &&& r.origin == u.origin
            &&& r.protocol.len() == u.scheme.len() + 1
            &&& r.protocol.drop_last() == u.scheme
            &&& r.protocol.last() == ':'
            &&& u.host matches Some(h) ==> r.host == h && r.hostname == h
            &&& u.host is None ==> r.host.len() == 0 && r.hostname.len() == 0
            &&& r.pathname == u.path
            &&& u.query matches Some(q) ==> r.search.len() == q.len() + 1 && r.search[0] == '?'
                && r.search.drop_first() == q
            &&& u.query is None ==> r.search.len() == 0
            &&& u.fragment matches Some(f) ==> r.hash.len() == f.len() + 1 && r.hash[0] == '#'
                && r.hash.drop_first() == f
            &&& u.fragment is None ==> r.hash.len() == 0
            &&& u.port is None ==> r.port.len() == 0
            &&& u.port matches Some(p) ==> r.port == text::decimal(p as nat)
            &&& r.username == u.username
            &&& u.password matches Some(p) ==> r.password == p
            &&& u.password is None ==> r.password.len() == 0
        }),
{
    reveal_strlit(":");
    reveal_strlit("?");
    reveal_strlit("#");
    let r = record_of(s, Some(u));
    assert(r.protocol.drop_last() =~= u.scheme);
    if u.query is Some {
        assert(r.search.drop_first() =~= u.query->0);
    }
    if u.fragment is Some {
        assert(r.hash.drop_first() =~= u.fragment->0);
    }
}

/// A text that is no URL is kept as the `href`, and has no parts.
pub proof fn lemma_no_url(s: Seq<char>)
    ensures
        record_of(s, None).href == s,
        record_of(s, None).origin == s,
        record_of(s, None).protocol.len() == 0,
        record_of(s, None).host.len() == 0,
        record_of(s, None).hostname.len() == 0,
        record_of(s, None).pathname.len() == 0,
        record_of(s, None).search.len() == 0,
        record_of(s, None).hash.len() == 0,
        record_of(s, None).port.len() == 0,
        record_of(s, None).username.len() == 0,
        record_of(s, None).password.len() == 0,
        location_view(s, None).href == s,
        location_view(s, None).origin.len() == 0,
        location_view(s, None).protocol.len() == 0,
        location_view(s, None).hostname.len() == 0,
        location_view(s, None).pathname.len() == 0,
{
}

/// `window.location` says of a page what `new URL` says of its URL: the same
/// origin, protocol and path, and the same host where it is written in one way.
/// Its `href` is the URL as it was given.
pub proof fn lemma_location_agrees(page: Seq<char>, u: UrlPartsView)
    ensures
        location_view(page, Some(u)).href == page,
        location_view(page, Some(u)).origin == record_of(page, Some(u)).origin,
        location_view(page, Some(u)).protocol == record_of(page, Some(u)).protocol,
        location_view(page, Some(u)).pathname == record_of(page, Some(u)).pathname,
        u.host_str == u.host ==> location_view(page, Some(u)).hostname == record_of(
            page,
            Some(u),
        ).hostname,
        u.host_str matches Some(h) ==> location_view(page, Some(u)).hostname == h,
{
}

} // verus!
