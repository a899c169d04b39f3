//! `XMLHttpRequest`: the states of a request and what scripts read of its response.
use vstd::prelude::*;
use vstd::string::*;

use crate::codec;
use crate::js::arg;
use crate::js::arg::{Arg, Kind};
use crate::js::fetch_api::{Exchange, FetchRequestMsg, FetchResponseMsg};
use crate::text;

verus! {

/// Nothing has been done yet.
pub const UNSENT: u8 = 0;

/// The request has been opened.
pub const OPENED: u8 = 1;

/// The request is being sent.
pub const HEADERS_RECEIVED: u8 = 2;

/// The response is being read.
pub const LOADING: u8 = 3;

/// The request is over.
pub const DONE: u8 = 4;

/// A request.
pub struct Xhr {
    pub method: String,
    pub url: String,
    pub asynchronous: bool,
    pub ready_state: u8,
    pub status: u16,
    pub response_text: String,
    /// The headers of the response, each on a line of its own.
    pub response_headers: String,
}

/// What a request is.
pub struct XhrView {
    pub method: Seq<char>,
    pub url: Seq<char>,
    pub asynchronous: bool,
    pub ready_state: u8,
    pub status: u16,
    pub response_text: Seq<char>,
    pub response_headers: Seq<char>,
}

impl View for Xhr {
    type V = XhrView;

    open spec fn view(&self) -> XhrView {
        XhrView {
            method: self.method@,
            url: self.url@,
            asynchronous: self.asynchronous,
            ready_state: self.ready_state,
            status: self.status,
            response_text: self.response_text@,
            response_headers: self.response_headers@,
        }
    }
}

/// A callback of a request.
#[derive(Debug, Clone, Copy, PartialEq, Eq, Structural)]
pub enum Callback {
    OnLoad,
    OnError,
    OnReadyStateChange,
}

/// What names and values say.
pub open spec fn pair_views(v: Seq<(String, String)>) -> Seq<(Seq<char>, Seq<char>)> {
    v.map_values(|p: (String, String)| (p.0@, p.1@))
}

/// The request once a script has opened it.
pub open spec fn opened(x: XhrView, args: Seq<Arg>) -> XhrView {
    XhrView {
        method: arg::shown_at(args, 0),
        url: arg::shown_at(args, 1),
        asynchronous: match arg::given_boolean(args, 2) {
            Some(b) => b,
            None => true,
        },
        ready_state: OPENED,
        ..x
    }
}

/// The body that a script sends, if it is a string.
pub open spec fn sent_body(args: Seq<Arg>) -> Option<Seq<char>> {
    if args.len() > 0 && args[0].kind is Text {
        Some(arg::text_at(args, 0))
    } else {
        None
    }
}

/// Headers as text: `name: value` on a line each.
pub open spec fn header_text(pairs: Seq<(Seq<char>, Seq<char>)>) -> Seq<char>
    decreases pairs.len(),
{
    if pairs.len() == 0 {
        Seq::empty()
    } else {
        header_text(pairs.drop_last()) + (pairs.last().0 + ": "@ + pairs.last().1 + "\r\n"@)
    }
}

fn headers_as_text(headers: &[(String, String)]) -> (r: String)
    ensures
        r@ == header_text(pair_views(headers@)),
{
    let mut r: String = String::new();
    let ghost all = pair_views(headers@);
    let mut i: usize = 0;
    assert(all.take(0) =~= Seq::empty());
    while i < headers.len()
        invariant
            i <= headers.len(),
            all == pair_views(headers@),
            r@ == header_text(all.take(i as int)),
        decreases headers.len() - i,
    {
        proof {
            assert(all.take(i + 1).drop_last() =~= all.take(i as int));
        }
        let mut line: String = text::concat3(headers[i].0.as_str(), ": ", headers[i].1.as_str());
        line.append("\r\n");
        r.append(line.as_str());
        i = i + 1;
    }
    assert(all.take(i as int) =~= all);
    r
}

/// The state of a request once its exchange is over.
pub open spec fn received(x: XhrView, e: Exchange) -> XhrView {
    match e {
        Exchange::NoChannel => x,
        Exchange::SendFailed(_) => x,
        Exchange::Closed => XhrView { ready_state: DONE, status: 0, ..x },
        Exchange::Response(m) => XhrView {
            ready_state: DONE,
            status: m.status,
            response_text: m.body@,
            response_headers: header_text(pair_views(m.headers@)),
            ..x
        },
    }
}

/// The callbacks to call once an exchange is over: `onload` or, where the
/// response brings an error, `onerror`, and then `onreadystatechange`. Without
/// a response none is called.
pub open spec fn callbacks(e: Exchange) -> Seq<Callback> {
    match e {
        Exchange::Response(m) => if m.error is None {
            seq![Callback::OnLoad, Callback::OnReadyStateChange]
        } else {
            seq![Callback::OnError, Callback::OnReadyStateChange]
        },
        _ => Seq::empty(),
    }
}

/// A line as it stands in a text of several, without the carriage return at its end.
pub open spec fn line_end_cut(s: Seq<char>) -> Seq<char> {
    if s.len() > 0 && s.last() == '\r' {
        s.drop_last()
    } else {
        s
    }
}

/// The lines of pieces that were cut at line feeds: what follows the last line
/// feed is a line only if it is not empty, and keeps a carriage return.
pub open spec fn lines_of(pieces: Seq<Seq<char>>) -> Seq<Seq<char>>
    decreases pieces.len(),
{
    if pieces.len() == 0 {
        Seq::empty()
    } else if pieces.len() == 1 {
        if pieces[0].len() == 0 {
            Seq::empty()
        } else {
            pieces
        }
    } else {
        seq![line_end_cut(pieces[0])] + lines_of(pieces.drop_first())
    }
}

/// The lines of a text, as `str::lines` gives them.
pub open spec fn lines(s: Seq<char>) -> Seq<Seq<char>> {
    lines_of(text::pieces(s, "\n"@))
}

/// The value on a header line, if the line has the header of this name.
pub open spec fn value_on(line: Seq<char>, name: Seq<char>) -> Option<Seq<char>> {
    match text::find_in(line, ":"@) {
        Some(i) => if text::equal_ignoring_case(text::trimmed(line.take(i)), name) {
            Some(text::trimmed(line.skip(i + 1)))
        } else {
            None
        },
        None => None,
    }
}

/// The value on the first of the lines that has the header of this name.
pub open spec fn first_value(ls: Seq<Seq<char>>, name: Seq<char>) -> Option<Seq<char>>
    decreases ls.len(),
{
    if ls.len() == 0 {
        None
    } else {
        match value_on(ls[0], name) {
            Some(v) => Some(v),
            None => first_value(ls.drop_first(), name),
        }
    }
}

/// The lines of a text, as `str::lines` gives them.
fn lines_in(s: &str) -> (r: Vec<String>)
    ensures
        text::views(r@) == lines(s@),
{
    proof {
        reveal_strlit("\n");
        text::lemma_joined_pieces(s@, "\n"@);
    }
    let pieces: Vec<String> = text::split(s, "\n");
    let ghost all = text::views(pieces@);
    let mut r: Vec<String> = Vec::new();
    let mut i: usize = 0;
    assert(all.len() == pieces@.len());
    assert(all.skip(0) =~= all);
    assert(text::views(r@) =~= Seq::empty());
    while i + 1 < pieces.len()
        invariant
            i < pieces.len(),
            all == text::views(pieces@),
            text::views(r@) + lines_of(all.skip(i as int)) == lines_of(all),
        decreases pieces.len() - i,
    {
        let v: Vec<char> = text::chars_of(pieces[i].as_str());
        let line: String = if v.len() > 0 && v[v.len() - 1] == '\r' {
            text::text_of(&v, 0, v.len() - 1)
        } else {
            pieces[i].clone()
        };
        proof {
            let rest = all.skip(i as int);
            assert(rest[0] == v@);
            assert(line@ =~= line_end_cut(rest[0]));
            assert(rest.drop_first() =~= all.skip(i + 1));
            assert(text::views(r@.push(line)) =~= text::views(r@).push(line@));
            assert(text::views(r@) + (seq![line@] + lines_of(all.skip(i + 1))) =~= text::views(
                r@,
            ).push(line@) + lines_of(all.skip(i + 1)));
        }
        r.push(line);
        i = i + 1;
    }
    let ghost rest = all.skip(i as int);
    assert(rest.len() == 1 && rest[0] == pieces@[i as int]@);
    if !text::is_empty(pieces[i].as_str()) {
        let line: String = pieces[i].clone();
        proof {
            assert(text::views(r@.push(line)) =~= text::views(r@) + rest);
        }
        r.push(line);
    } else {
        assert(text::views(r@) + Seq::<Seq<char>>::empty() =~= text::views(r@));
    }
    r
}

impl Xhr {
    /// `new XMLHttpRequest()`
    pub fn new() -> (r: Xhr)
        ensures
            r@ == (XhrView {
                method: "GET"@,
                url: Seq::empty(),
                asynchronous: true,
                ready_state: UNSENT,
                status: 0,
                response_text: Seq::empty(),
                response_headers: Seq::empty(),
            }),
    {
        Xhr {
            method: "GET".to_owned(),
            url: String::new(),
            asynchronous: true,
            ready_state: UNSENT,
            status: 0,
            response_text: String::new(),
            response_headers: String::new(),
        }
    }

    /// `open(method, url, async)`
    pub fn open(&mut self, args: &[Arg])
        ensures
            final(self)@ == opened(old(self)@, args@),
    {
        self.method = arg::shown(args, 0);
        self.url = arg::shown(args, 1);
        self.asynchronous = match arg::boolean(args, 2) {
            Some(b) => b,
            None => true,
        };
        self.ready_state = OPENED;
    }

    /// `send(body)`: the request that is sent.
    pub fn send(
        &mut self,
        args: &[Arg],
        response_tx: std::sync::mpsc::Sender<FetchResponseMsg>,
    ) -> (r: FetchRequestMsg)
        ensures
            final(self)@ == (XhrView { ready_state: HEADERS_RECEIVED, ..old(self)@ }),
            r.url@ == old(self)@.url,
            r.method@ == old(self)@.method,
            r.headers@.len() == 0,
            codec::text_view(r.body) == sent_body(args@),
            r.response_tx == response_tx,
    {
        let body: Option<String> = if args.len() > 0 {
            match &args[0].kind {
                Kind::Text(t) => Some(t.clone()),
                _ => None,
            }
        } else {
            None
        };
        self.ready_state = HEADERS_RECEIVED;
        FetchRequestMsg {
            url: self.url.clone(),
            method: self.method.clone(),
            headers: Vec::new(),
            body,
            response_tx,
        }
    }

    /// Takes what became of the request that was sent, and says which
    /// callbacks to call, one after another.
    pub fn receive(&mut self, e: Exchange) -> (r: Vec<Callback>)
        ensures
            final(self)@ == received(old(self)@, e),
            r@ == callbacks(e),
    {
        match e {
            Exchange::NoChannel => Vec::new(),
            Exchange::SendFailed(_) => Vec::new(),
            Exchange::Closed => {
                self.ready_state = DONE;
                self.status = 0;
                Vec::new()
            },
            Exchange::Response(m) => {
                self.ready_state = LOADING;
                self.status = m.status;
                self.response_headers = headers_as_text(m.headers.as_slice());
                self.response_text = m.body;
                self.ready_state = DONE;
                let r: Vec<Callback> = if m.error.is_none() {
                    vec![Callback::OnLoad, Callback::OnReadyStateChange]
                } else {
                    vec![Callback::OnError, Callback::OnReadyStateChange]
                };
                assert(r@ =~= callbacks(e));
                r
            },
        }
    }

    /// `abort()`
    pub fn abort(&mut self)
        ensures
            final(self)@ == (XhrView { ready_state: UNSENT, ..old(self)@ }),
    {
        self.ready_state = UNSENT;
    }

    /// `getResponseHeader(name)`: the value of the first header of this name,
    /// upper and lower case being the same; nothing if there is none.
    pub fn get_response_header(&self, args: &[Arg]) -> (r: Option<String>)
        ensures
            codec::text_view(r) == first_value(
                lines(self@.response_headers),
                arg::shown_at(args@, 0),
            ),
    {
        let name: String = arg::shown(args, 0);
        let ls: Vec<String> = lines_in(self.response_headers.as_str());
        let ghost all = text::views(ls@);
        let mut i: usize = 0;
        proof {
            reveal_strlit(":");
            assert(all.skip(0) =~= all);
        }
        while i < ls.len()
            invariant
                i <= ls.len(),
                all == text::views(ls@),
                all == lines(self@.response_headers),
                name@ == arg::shown_at(args@, 0),
                ":"@.len() == 1,
                first_value(all, name@) == first_value(all.skip(i as int), name@),
            decreases ls.len() - i,
        {
            let line: &str = ls[i].as_str();
            proof {
                assert(all.skip(i as int)[0] == line@);
                assert(all.skip(i as int).drop_first() =~= all.skip(i + 1));
                text::lemma_find_from(line@, ":"@, 0);
            }
            match text::find(line, ":") {
                Some(at) => {
                    let key: String = text::trim(text::head(line, at).as_str());
                    if text::same_ignoring_case(key.as_str(), name.as_str()) {
                        let whole: usize = line.unicode_len();
                        assert(at + 1 <= whole);
                        return Some(text::trim(text::tail(line, at + 1).as_str()));
                    }
                },
                None => {},
            }
            i = i + 1;
        }
        None
    }
}

/// A header whose name and value can stand on a line: neither holds a line
/// feed, and the name no colon.
pub open spec fn fits_line(pair: (Seq<char>, Seq<char>)) -> bool {
    &&& !pair.0.contains('\n')
    &&& !pair.1.contains('\n')
    &&& !pair.0.contains(':')
}

/// The value of the first of the headers that has this name.
pub open spec fn first_header(
    pairs: Seq<(Seq<char>, Seq<char>)>,
    name: Seq<char>,
) -> Option<Seq<char>>
    decreases pairs.len(),
{
    if pairs.len() == 0 {
        None
    } else if text::equal_ignoring_case(text::trimmed(pairs[0].0), name) {
        Some(text::trimmed(pairs[0].1))
    } else {
        first_header(pairs.drop_first(), name)
    }
}

proof fn lemma_header_text_front(pairs: Seq<(Seq<char>, Seq<char>)>)
    requires
        pairs.len() > 0,
    ensures
        header_text(pairs) == pairs[0].0 + ": "@ + pairs[0].1 + "\r\n"@ + header_text(
            pairs.drop_first(),
        ),
    decreases pairs.len(),
{
    let line = pairs[0].0 + ": "@ + pairs[0].1 + "\r\n"@;
    if pairs.len() == 1 {
        assert(pairs.drop_last() =~= Seq::empty());
        assert(pairs.drop_first() =~= Seq::empty());
        assert(header_text(pairs) =~= line + header_text(pairs.drop_first()));
    } else {
        let front = pairs.drop_last();
        lemma_header_text_front(front);
        let last = pairs.last().0 + ": "@ + pairs.last().1 + "\r\n"@;
        assert(pairs.drop_first().drop_last() =~= front.drop_first());
        assert(header_text(pairs) =~= (line + header_text(front.drop_first())) + last);
        assert(header_text(pairs.drop_first()) == header_text(front.drop_first()) + last);
        assert(header_text(pairs) =~= line + header_text(pairs.drop_first()));
    }
}

proof fn lemma_value_on(pair: (Seq<char>, Seq<char>), name: Seq<char>)
    requires
        fits_line(pair),
    ensures
        value_on(pair.0 + ": "@ + pair.1, name) == if text::equal_ignoring_case(
            text::trimmed(pair.0),
            name,
        ) {
            Some(text::trimmed(pair.1))
        } else {
            None
        },
{
    reveal_strlit(":");
    reveal_strlit(": ");
    assert(":"@ =~= seq![':']);
    assert(": "@ =~= seq![':', ' ']);
    let line = pair.0 + ": "@ + pair.1;
    let rest = seq![' '] + pair.1;
    assert(line =~= pair.0 + seq![':'] + rest);
    text::lemma_find_first(pair.0, ':', rest);
    assert(line.take(pair.0.len() as int) =~= pair.0);
    assert(line.skip(pair.0.len() as int + 1) =~= rest);
    assert(rest.drop_first() =~= pair.1);
    assert(text::trimmed_front(rest) == text::trimmed_front(pair.1));
}

/// What `getResponseHeader` gives is the value of the first of the response's
/// headers that has the name, without white space around it.
pub proof fn lemma_header_read_back(pairs: Seq<(Seq<char>, Seq<char>)>, name: Seq<char>)
    requires
        forall|i: int| 0 <= i < pairs.len() ==> fits_line(#[trigger] pairs[i]),
    ensures
        first_value(lines(header_text(pairs)), name) == first_header(pairs, name),
    decreases pairs.len(),
{
    reveal_strlit("\n");
    reveal_strlit("\r\n");
    reveal_strlit(": ");
    assert("\n"@ =~= seq!['\n']);
    assert("\r\n"@ =~= seq!['\r', '\n']);
    assert(": "@ =~= seq![':', ' ']);
    if pairs.len() == 0 {
        let none = Seq::<char>::empty();
        assert(header_text(pairs) == none);
        text::lemma_find_from(none, "\n"@, 0);
        assert(text::pieces(none, "\n"@) == seq![none]);
        assert(lines(none) == Seq::<Seq<char>>::empty());
    } else {
        let pair = pairs[0];
        let tail = pairs.drop_first();
        let line = pair.0 + ": "@ + pair.1;
        let rest = header_text(tail);
        lemma_header_text_front(pairs);
        lemma_header_read_back(tail, name);
        let shown = line.push('\r');
        assert(header_text(pairs) =~= shown + seq!['\n'] + rest);
        assert(!shown.contains('\n')) by {
            assert forall|j: int| 0 <= j < shown.len() implies shown[j] != '\n' by {
                let n = pair.0.len();
                if j < n {
                    assert(shown[j] == pair.0[j]);
                    assert(pair.0.contains(pair.0[j]));
                } else if j >= n + 2 && j < line.len() {
                    assert(shown[j] == pair.1[j - n - 2]);
                    assert(pair.1.contains(pair.1[j - n - 2]));
                }
            }
        }
        text::lemma_pieces_front(shown, '\n', rest);
        let ps = text::pieces(header_text(pairs), "\n"@);
        text::lemma_joined_pieces(rest, "\n"@);
        assert(ps.drop_first() =~= text::pieces(rest, "\n"@));
        assert(line_end_cut(shown) =~= line);
        let ls = lines(header_text(pairs));
        assert(ls == seq![line] + lines(rest));
        assert(ls[0] == line);
        assert(ls.drop_first() =~= lines(rest));
        lemma_value_on(pair, name);
    }
}

/// What a response brings is what scripts read: its status, its body, and that
/// the request is over. Method and URL stay. Without a response there is no
/// status and no new text, and a request that was not sent stays as it was.
pub proof fn lemma_received(x: XhrView, e: Exchange)
    ensures
        ({
            let r = received(x, e);
            &&& r.method == x.method && r.url == x.url && r.asynchronous == x.asynchronous
            &&& e matches Exchange::Response(m) ==> r.ready_state == 4 && r.status == m.status
                && r.response_text == m.body@
            &&& e is Closed ==> r.ready_state == 4 && r.status == 0 && r.response_text
                == x.response_text && r.response_headers == x.response_headers
            &&& e is NoChannel || e is SendFailed ==> r == x
        }),
{
}

/// A response calls back twice: first `onload`, or `onerror` where it brings an
/// error, never both, and last `onreadystatechange`. Nothing else calls back.
pub proof fn lemma_callbacks(e: Exchange)
    ensures
        callbacks(e).len() == if e is Response {
            2int
        } else {
            0int
        },
        e matches Exchange::Response(m) ==> {
            let c = callbacks(e);
            &&& c[1] is OnReadyStateChange
            &&& c[0] is OnLoad <==> m.error is None
            &&& c[0] is OnError <==> m.error is Some
        },
{
}

/// Each header of a response stands on a line of its own, with a colon between
/// its name and its value.
pub proof fn lemma_header_lines(
    pairs: Seq<(Seq<char>, Seq<char>)>,
    name: Seq<char>,
    value: Seq<char>,
)
    ensures
        header_text(pairs.push((name, value))) == header_text(pairs) + (name + seq![':', ' '] + value
            + seq!['\r', '\n']),
        header_text(Seq::empty()).len() == 0,
{
    reveal_strlit(": ");
    reveal_strlit("\r\n");
    assert(": "@ =~= seq![':', ' ']);
    assert("\r\n"@ =~= seq!['\r', '\n']);
    assert(pairs.push((name, value)).drop_last() =~= pairs);
}

/// A header is found whatever the case of the letters of its name, and its value
/// is the one it was given, where that has no white space around it.
pub proof fn lemma_header_found(
    pairs: Seq<(Seq<char>, Seq<char>)>,
    i: int,
    asked: Seq<char>,
)
    requires
        0 <= i < pairs.len(),
        forall|j: int| 0 <= j < pairs.len() ==> fits_line(#[trigger] pairs[j]),
        forall|j: int|
            0 <= j < i ==> !text::equal_ignoring_case(text::trimmed((#[trigger] pairs[j]).0), asked),
        text::equal_ignoring_case(pairs[i].0, asked),
        pairs[i].0.len() > 0 ==> !text::white(pairs[i].0[0]) && !text::white(pairs[i].0.last()),
        pairs[i].1.len() > 0 ==> !text::white(pairs[i].1[0]) && !text::white(pairs[i].1.last()),
    ensures
        first_value(lines(header_text(pairs)), asked) == Some(pairs[i].1),
{
    lemma_header_read_back(pairs, asked);
    lemma_first_header(pairs, i, asked);
}

proof fn lemma_first_header(pairs: Seq<(Seq<char>, Seq<char>)>, i: int, asked: Seq<char>)
    requires
        0 <= i < pairs.len(),
        forall|j: int|
            0 <= j < i ==> !text::equal_ignoring_case(text::trimmed((#[trigger] pairs[j]).0), asked),
        text::equal_ignoring_case(pairs[i].0, asked),
        pairs[i].0.len() > 0 ==> !text::white(pairs[i].0[0]) && !text::white(pairs[i].0.last()),
        pairs[i].1.len() > 0 ==> !text::white(pairs[i].1[0]) && !text::white(pairs[i].1.last()),
    ensures
        first_header(pairs, asked) == Some(pairs[i].1),
    decreases i,
{
    text::lemma_trimmed_same(pairs[i].0);
    text::lemma_trimmed_same(pairs[i].1);
    if i > 0 {
        assert(!text::equal_ignoring_case(text::trimmed(pairs[0].0), asked));
        let rest = pairs.drop_first();
        assert forall|j: int| 0 <= j < i - 1 implies !text::equal_ignoring_case(
            text::trimmed((#[trigger] rest[j]).0),
            asked,
        ) by {
            assert(rest[j] == pairs[j + 1]);
        }
        lemma_first_header(rest, i - 1, asked);
    }
}

/// A line ends at a line feed; a carriage return before that belongs to its end,
/// and nothing else is cut off.
pub proof fn lemma_line_end(s: Seq<char>, c: char)
    ensures
        line_end_cut(s.push('\r')) == s,
        c != '\r' ==> line_end_cut(s.push(c)) == s.push(c),
        line_end_cut(Seq::empty()).len() == 0,
{
    assert(s.push('\r').drop_last() =~= s);
}

/// A request is opened with the method and the URL that are given in this order,
/// asynchronous unless the third argument is `false`; what came of an earlier
/// response stays.
pub proof fn lemma_opened(x: XhrView, method: Arg, url: Arg, third: Arg)
    ensures
        ({
            let two = opened(x, seq![method, url]);
            let three = opened(x, seq![method, url, third]);
            &&& method.shown matches Some(m) ==> two.method == m@ && three.method == m@
            &&& url.shown matches Some(u) ==> two.url == u@ && three.url == u@
            &&& two.asynchronous
            &&& three.asynchronous <==> third.kind != Kind::Boolean(false)
            &&& two.ready_state == 1 && three.ready_state == 1
            &&& three.status == x.status && three.response_text == x.response_text
            &&& three.response_headers == x.response_headers
        }),
{
}

/// A string is sent as it is; anything else, or nothing, sends no body.
pub proof fn lemma_sent_body(a: Arg, rest: Seq<Arg>)
    ensures
        a.kind matches Kind::Text(t) ==> sent_body(seq![a] + rest) == Some(t@),
        !(a.kind is Text) ==> sent_body(seq![a] + rest) is None,
        sent_body(Seq::empty()) is None,
{
}

} // verus!
