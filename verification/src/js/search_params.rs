//! `URLSearchParams`: the parameters of a query, each name with its values.
use vstd::prelude::*;
use vstd::string::*;

use crate::js::arg;
use crate::js::arg::Arg;
use crate::strmap::StringMap;
use crate::text;

verus! {

/// The values of each name.
pub type Values = Map<Seq<char>, Seq<Seq<char>>>;

/// The parameters of a query.
pub struct UrlSearchParams {
    values: StringMap<Vec<String>>,
}

/// The parameters once `value` has been added to the values of `key`.
pub open spec fn appended(m: Values, key: Seq<char>, value: Seq<char>) -> Values {
    if m.contains_key(key) {
        m.insert(key, m[key].push(value))
    } else {
        m.insert(key, seq![value])
    }
}

/// The parameters once a piece of a query has been read: `name=value` adds a
/// value, a name alone adds the name without a value, an empty piece nothing.
pub open spec fn with_piece(m: Values, piece: Seq<char>) -> Values {
    match text::find_in(piece, "="@) {
        Some(e) => appended(m, piece.take(e), piece.skip(e + 1)),
        None => if piece.len() == 0 || m.contains_key(piece) {
            m
        } else {
            m.insert(piece, Seq::empty())
        },
    }
}

/// The parameters once all pieces have been read.
pub open spec fn with_pieces(pieces: Seq<Seq<char>>) -> Values
    decreases pieces.len(),
{
    if pieces.len() == 0 {
        Map::empty()
    } else {
        with_piece(with_pieces(pieces.drop_last()), pieces.last())
    }
}

/// The parameters of a query.
pub open spec fn parsed(query: Seq<char>) -> Values {
    with_pieces(text::pieces(query, "&"@))
}

/// The first value of a name; empty if it has none.
pub open spec fn first_of(m: Values, key: Seq<char>) -> Seq<char> {
    if m.contains_key(key) && m[key].len() > 0 {
        m[key][0]
    } else {
        Seq::empty()
    }
}

/// The names and values in a row: those of the first name, then those of the
/// second, and so on.
pub open spec fn pairs(keys: Seq<Seq<char>>, m: Values) -> Seq<(Seq<char>, Seq<char>)>
    decreases keys.len(),
{
    if keys.len() == 0 {
        Seq::empty()
    } else {
        let k = keys.last();
        pairs(keys.drop_last(), m) + Seq::new(m[k].len(), |i: int| (k, m[k][i]))
    }
}

/// The name of each pair.
pub open spec fn firsts(ps: Seq<(Seq<char>, Seq<char>)>) -> Seq<Seq<char>> {
    ps.map_values(|p: (Seq<char>, Seq<char>)| p.0)
}

/// The value of each pair.
pub open spec fn seconds(ps: Seq<(Seq<char>, Seq<char>)>) -> Seq<Seq<char>> {
    ps.map_values(|p: (Seq<char>, Seq<char>)| p.1)
}

/// `name=value` of each pair.
pub open spec fn equations(ps: Seq<(Seq<char>, Seq<char>)>) -> Seq<Seq<char>> {
    ps.map_values(|p: (Seq<char>, Seq<char>)| p.0 + "="@ + p.1)
}

/// What names and values say.
pub open spec fn pair_views(v: Seq<(String, String)>) -> Seq<(Seq<char>, Seq<char>)> {
    v.map_values(|p: (String, String)| (p.0@, p.1@))
}

impl View for UrlSearchParams {
    type V = Values;

    closed spec fn view(&self) -> Values {
        self.values@.map_values(|v: Vec<String>| text::views(v@))
    }
}

impl UrlSearchParams {
    /// No name occurs twice.
    pub closed spec fn wf(&self) -> bool {
        self.values.wf()
    }

    /// The names, in the order in which they are walked.
    pub closed spec fn names(&self) -> Seq<Seq<char>> {
        self.values.keys()
    }

    /// The names that are walked are those that there are, each once.
    pub proof fn lemma_names(&self)
        requires
            self.wf(),
        ensures
            self.names().no_duplicates(),
            forall|k: Seq<char>| #[trigger] self@.contains_key(k) <==> self.names().contains(k),
    {
        self.values.lemma_keys();
    }

    fn push(&mut self, key: String, value: String)
        requires
            old(self).wf(),
        ensures
            final(self).wf(),
            final(self)@ == appended(old(self)@, key@, value@),
    {
        let ghost k = key@;
        let ghost v = value@;
        let mut list: Vec<String> = match self.values.get(key.as_str()) {
            Some(l) => copy(l),
            None => Vec::new(),
        };
        proof {
            assert(text::views(list@.push(value)) =~= text::views(list@).push(v));
            if old(self)@.contains_key(k) {
                assert(text::views(list@) == old(self)@[k]);
            } else {
                assert(text::views(list@).push(v) =~= seq![v]);
            }
        }
        list.push(value);
        self.values.insert(key, list);
        assert(self@ =~= appended(old(self)@, k, v));
    }

    fn add_name(&mut self, key: String)
        requires
            old(self).wf(),
        ensures
            final(self).wf(),
            final(self)@ == if old(self)@.contains_key(key@) {
                old(self)@
            } else {
                old(self)@.insert(key@, Seq::empty())
            },
    {
        if !self.values.contains_key(key.as_str()) {
            let ghost k = key@;
            let none: Vec<String> = Vec::new();
            assert(text::views(none@) =~= Seq::empty());
            self.values.insert(key, none);
            assert(self@ =~= old(self)@.insert(k, Seq::empty()));
        }
    }

    /// `new URLSearchParams(query)`: the query is cut at each `&`, and each
    /// piece at its first `=`.
    pub fn parse(query: &str) -> (r: UrlSearchParams)
        ensures
            r.wf(),
            r@ == parsed(query@),
    {
        proof {
            reveal_strlit("&");
            reveal_strlit("=");
        }
        let pieces: Vec<String> = text::split(query, "&");
        let ghost all = text::views(pieces@);
        let mut r: UrlSearchParams = UrlSearchParams { values: StringMap::new() };
        let mut i: usize = 0;
        proof {
            assert(all.take(0) =~= Seq::empty());
            assert(r@ =~= Values::empty());
        }
        while i < pieces.len()
            invariant
                i <= pieces.len(),
                all == text::views(pieces@),
                "="@.len() == 1,
                r.wf(),
                r@ == with_pieces(all.take(i as int)),
            decreases pieces.len() - i,
        {
            let piece: &str = pieces[i].as_str();
            proof {
                assert(all.take(i + 1).drop_last() =~= all.take(i as int));
                assert(all.take(i + 1).last() == piece@);
                text::lemma_find_from(piece@, "="@, 0);
            }
            match text::find(piece, "=") {
                Some(e) => {
                    let whole: usize = piece.unicode_len();
                    assert(e + 1 <= whole);
                    r.push(text::head(piece, e), text::tail(piece, e + 1));
                },
                None => {
                    if !text::is_empty(piece) {
                        r.add_name(piece.to_owned());
                    }
                },
            }
            i = i + 1;
        }
        assert(all.take(i as int) =~= all);
        r
    }

    /// `get(name)`: the first value of a name; empty if it has none.
    pub fn get(&self, args: &[Arg]) -> (r: String)
        requires
            self.wf(),
        ensures
            r@ == first_of(self@, arg::shown_at(args@, 0)),
    {
        let key: String = arg::shown(args, 0);
        match self.values.get(key.as_str()) {
            Some(l) => {
                assert(text::views(l@).len() == l@.len());
                if l.len() > 0 {
                    l[0].clone()
                } else {
                    String::new()
                }
            },
            None => String::new(),
        }
    }

    /// `set(name, value)`: the name has this one value from now on.
    pub fn set(&mut self, args: &[Arg])
        requires
            old(self).wf(),
        ensures
            final(self).wf(),
            final(self)@ == old(self)@.insert(
                arg::shown_at(args@, 0),
                seq![arg::shown_at(args@, 1)],
            ),
    {
        let key: String = arg::shown(args, 0);
        let value: String = arg::shown(args, 1);
        let ghost v = value@;
        let one: Vec<String> = vec![value];
        assert(text::views(one@) =~= seq![v]);
        self.values.insert(key, one);
        assert(self@ =~= old(self)@.insert(arg::shown_at(args@, 0), seq![v]));
    }

    /// `append(name, value)`: the name has one value more from now on.
    pub fn append(&mut self, args: &[Arg])
        requires
            old(self).wf(),
        ensures
            final(self).wf(),
            final(self)@ == appended(
                old(self)@,
                arg::shown_at(args@, 0),
                arg::shown_at(args@, 1),
            ),
    {
        self.push(arg::shown(args, 0), arg::shown(args, 1));
    }

    /// `delete(name)`: the name is gone with all its values.
    pub fn delete(&mut self, args: &[Arg])
        requires
            old(self).wf(),
        ensures
            final(self).wf(),
            final(self)@ == old(self)@.remove(arg::shown_at(args@, 0)),
    {
        let key: String = arg::shown(args, 0);
        self.values.remove(key.as_str());
        assert(self@ =~= old(self)@.remove(key@));
    }

    /// `has(name)`: whether there is such a name.
    pub fn has(&self, args: &[Arg]) -> (r: bool)
        requires
            self.wf(),
        ensures
            r == self@.contains_key(arg::shown_at(args@, 0)),
    {
        let key: String = arg::shown(args, 0);
        self.values.contains_key(key.as_str())
    }

    /// The names and values that `forEach` hands to its callback, one call for each.
    pub fn for_each(&self) -> (r: Vec<(String, String)>)
        requires
            self.wf(),
        ensures
            pair_views(r@) == pairs(self.names(), self@),
    {
        let mut r: Vec<(String, String)> = Vec::new();
        let mut i: usize = 0;
        proof {
            assert(self.names().take(0) =~= Seq::empty());
            assert(pair_views(r@) =~= Seq::empty());
        }
        while i < self.values.len()
            invariant
                i <= self.names().len(),
                self.wf(),
                pair_views(r@) == pairs(self.names().take(i as int), self@),
            decreases self.names().len() - i,
        {
            proof {
                self.lemma_names();
                assert(self.names().contains(self.names()[i as int]));
            }
            let ghost before = pair_views(r@);
            let key: String = match self.values.key_at(i) {
                Some(k) => k.clone(),
                None => String::new(),
            };
            let list: &Vec<String> = self.values.value_at(i);
            let ghost own = self@[key@];
            assert(own == text::views(list@));
            let mut j: usize = 0;
            assert(pair_views(r@) =~= before + Seq::new(0, |n: int| (key@, own[n])));
            while j < list.len()
                invariant
                    j <= list.len(),
                    own == text::views(list@),
                    pair_views(r@) == before + Seq::new(j as nat, |n: int| (key@, own[n])),
                decreases list.len() - j,
            {
                let pair: (String, String) = (key.clone(), list[j].clone());
                assert(pair_views(r@.push(pair)) =~= pair_views(r@).push((key@, own[j as int])));
                r.push(pair);
                assert(pair_views(r@) =~= before + Seq::new((j + 1) as nat, |n: int| (key@, own[n])));
                j = j + 1;
            }
            assert(self.names().take(i + 1).drop_last() =~= self.names().take(i as int));
            assert(Seq::new(j as nat, |n: int| (key@, own[n])) =~= Seq::new(
                self@[key@].len(),
                |n: int| (key@, self@[key@][n]),
            ));
            i = i + 1;
        }
        assert(self.names().take(i as int) =~= self.names());
        r
    }

    /// `keys()`: the name of each value, in the order in which `forEach` walks them.
    pub fn keys(&self) -> (r: Vec<String>)
        requires
            self.wf(),
        ensures
            text::views(r@) == firsts(pairs(self.names(), self@)),
    {
        let all: Vec<(String, String)> = self.for_each();
        let ghost ps = pair_views(all@);
        let mut r: Vec<String> = Vec::new();
        let mut i: usize = 0;
        while i < all.len()
            invariant
                i <= all.len(),
                ps == pair_views(all@),
                r@.len() == i,
                forall|n: int| 0 <= n < i ==> r@[n]@ == ps[n].0,
            decreases all.len() - i,
        {
            r.push(all[i].0.clone());
            i = i + 1;
        }
        assert(text::views(r@) =~= firsts(ps));
        r
    }

    /// `values()`: the values, in the order in which `forEach` walks them.
    pub fn values(&self) -> (r: Vec<String>)
        requires
            self.wf(),
        ensures
            text::views(r@) == seconds(pairs(self.names(), self@)),
    {
        let all: Vec<(String, String)> = self.for_each();
        let ghost ps = pair_views(all@);
        let mut r: Vec<String> = Vec::new();
        let mut i: usize = 0;
        while i < all.len()
            invariant
                i <= all.len(),
                ps == pair_views(all@),
                r@.len() == i,
                forall|n: int| 0 <= n < i ==> r@[n]@ == ps[n].1,
            decreases all.len() - i,
        {
            r.push(all[i].1.clone());
            i = i + 1;
        }
        assert(text::views(r@) =~= seconds(ps));
        r
    }

    /// `entries()`: the names and values, in the order in which `forEach` walks them.
    pub fn entries(&self) -> (r: Vec<(String, String)>)
        requires
            self.wf(),
        ensures
            pair_views(r@) == pairs(self.names(), self@),
    {
        self.for_each()
    }

    /// `toString()`: `name=value` for each value, with `&` between.
    pub fn to_text(&self) -> (r: String)
        requires
            self.wf(),
        ensures
            r@ == text::joined(equations(pairs(self.names(), self@)), "&"@),
    {
        let all: Vec<(String, String)> = self.for_each();
        let ghost ps = pair_views(all@);
        let mut parts: Vec<String> = Vec::new();
        let mut i: usize = 0;
        while i < all.len()
            invariant
                i <= all.len(),
                ps == pair_views(all@),
                parts@.len() == i,
                forall|n: int| 0 <= n < i ==> parts@[n]@ == ps[n].0 + "="@ + ps[n].1,
            decreases all.len() - i,
        {
            let p: &(String, String) = &all[i];
            parts.push(text::concat3(p.0.as_str(), "=", p.1.as_str()));
            i = i + 1;
        }
        assert(text::views(parts@) =~= equations(ps));
        text::join(parts.as_slice(), "&")
    }
}

/// The texts of a query can be told apart again: no name has a `=` or a `&` in
/// it, no value has a `&` in it, and each name has a value.
pub open spec fn unambiguous(keys: Seq<Seq<char>>, m: Values) -> bool {
    forall|i: int|
        0 <= i < keys.len() ==> {
            &&& !(#[trigger] keys[i]).contains('=')
            &&& !keys[i].contains('&')
            &&& m[keys[i]].len() > 0
            &&& forall|j: int|
                0 <= j < m[keys[i]].len() ==> !(#[trigger] m[keys[i]][j]).contains('&')
        }
}

/// The values of some of the names.
spec fn only(keys: Seq<Seq<char>>, m: Values) -> Values {
    Map::new(|k: Seq<char>| keys.contains(k), |k: Seq<char>| m[k])
}

/// The first `n` values of a name, each with the name.
spec fn own_pairs(k: Seq<char>, m: Values, n: nat) -> Seq<(Seq<char>, Seq<char>)> {
    Seq::new(n, |i: int| (k, m[k][i]))
}

proof fn lemma_read_pair(m: Values, k: Seq<char>, v: Seq<char>)
    requires
        !k.contains('='),
    ensures
        with_piece(m, k + "="@ + v) == appended(m, k, v),
{
    reveal_strlit("=");
    assert("="@ =~= seq!['=']);
    let piece = k + "="@ + v;
    text::lemma_find_first(k, '=', v);
    assert(piece.take(k.len() as int) =~= k);
    assert(piece.skip(k.len() as int + 1) =~= v);
}

proof fn lemma_read_values(
    front: Seq<(Seq<char>, Seq<char>)>,
    before: Values,
    k: Seq<char>,
    m: Values,
    n: nat,
)
    requires
        with_pieces(equations(front)) == before,
        !before.contains_key(k),
        !k.contains('='),
        n <= m[k].len(),
    ensures
        with_pieces(equations(front + own_pairs(k, m, n))) == if n == 0 {
            before
        } else {
            before.insert(k, m[k].take(n as int))
        },
    decreases n,
{
    let all = front + own_pairs(k, m, n);
    if n == 0 {
        assert(all =~= front);
    } else {
        let fewer = (n - 1) as nat;
        let v = m[k][n - 1];
        lemma_read_values(front, before, k, m, fewer);
        assert(equations(all).drop_last() =~= equations(front + own_pairs(k, m, fewer)));
        assert(equations(all).last() == k + "="@ + v);
        let read = with_pieces(equations(front + own_pairs(k, m, fewer)));
        lemma_read_pair(read, k, v);
        if fewer == 0 {
            assert(m[k].take(1) =~= seq![v]);
        } else {
            assert(m[k].take(n - 1).push(v) =~= m[k].take(n as int));
            assert(read.insert(k, m[k].take(n as int)) =~= before.insert(k, m[k].take(n as int)));
        }
    }
}

proof fn lemma_read_pairs(keys: Seq<Seq<char>>, m: Values)
    requires
        keys.no_duplicates(),
        unambiguous(keys, m),
    ensures
        with_pieces(equations(pairs(keys, m))) == only(keys, m),
    decreases keys.len(),
{
    if keys.len() == 0 {
        assert(only(keys, m) =~= Map::empty());
    } else {
        let front = keys.drop_last();
        let k = keys.last();
        assert(k == keys[keys.len() - 1]);
        assert forall|i: int| 0 <= i < front.len() implies front[i] == keys[i] by {}
        assert(unambiguous(front, m));
        lemma_read_pairs(front, m);
        if front.contains(k) {
            let i = choose|i: int| 0 <= i < front.len() && front[i] == k;
            assert(keys[i] == keys[keys.len() - 1]);
        }
        lemma_read_values(pairs(front, m), only(front, m), k, m, m[k].len());
        assert(m[k].take(m[k].len() as int) =~= m[k]);
        assert forall|q: Seq<char>| keys.contains(q) <==> front.contains(q) || q == k by {
            if keys.contains(q) && q != k {
                let i = choose|i: int| 0 <= i < keys.len() && keys[i] == q;
                assert(front[i] == q);
            }
            if front.contains(q) {
                let i = choose|i: int| 0 <= i < front.len() && front[i] == q;
                assert(keys[i] == q);
            }
        }
        assert(only(front, m).insert(k, m[k]) =~= only(keys, m));
    }
}

/// The pair is one of those of the names.
spec fn belongs(keys: Seq<Seq<char>>, m: Values, p: (Seq<char>, Seq<char>)) -> bool {
    exists|a: int, b: int| #[trigger] belongs_at(keys, m, p, a, b)
}

spec fn belongs_at(
    keys: Seq<Seq<char>>,
    m: Values,
    p: (Seq<char>, Seq<char>),
    a: int,
    b: int,
) -> bool {
    0 <= a < keys.len() && 0 <= b < m[keys[a]].len() && p == (keys[a], m[keys[a]][b])
}

proof fn lemma_pairs_belong(keys: Seq<Seq<char>>, m: Values, i: int)
    requires
        0 <= i < pairs(keys, m).len(),
    ensures
        belongs(keys, m, pairs(keys, m)[i]),
    decreases keys.len(),
{
    let front = keys.drop_last();
    let before = pairs(front, m);
    let p = pairs(keys, m)[i];
    if i < before.len() {
        lemma_pairs_belong(front, m, i);
        let (a, b) = choose|a: int, b: int| #[trigger] belongs_at(front, m, before[i], a, b);
        assert(belongs_at(keys, m, p, a, b));
    } else {
        assert(belongs_at(keys, m, p, keys.len() - 1, i - before.len()));
    }
}

/// Parameters that are written as text and read again are the same, whatever
/// the order in which their names are walked, as far as the texts can be told apart.
pub proof fn lemma_text_read_back(keys: Seq<Seq<char>>, m: Values)
    requires
        keys.no_duplicates(),
        forall|k: Seq<char>| #[trigger] m.contains_key(k) <==> keys.contains(k),
        unambiguous(keys, m),
    ensures
        parsed(text::joined(equations(pairs(keys, m)), "&"@)) == m,
{
    reveal_strlit("&");
    reveal_strlit("=");
    assert("&"@ =~= seq!['&']);
    let parts = equations(pairs(keys, m));
    lemma_read_pairs(keys, m);
    assert(only(keys, m) =~= m);
    if parts.len() == 0 {
        text::lemma_one_piece(Seq::empty(), '&');
        let one = seq![Seq::<char>::empty()];
        assert(one.drop_last() =~= Seq::<Seq<char>>::empty());
        text::lemma_find_from(Seq::empty(), "="@, 0);
        assert(with_pieces(one) == with_piece(with_pieces(one.drop_last()), Seq::empty()));
    } else {
        assert forall|i: int| 0 <= i < parts.len() implies !(#[trigger] parts[i]).contains('&') by {
            let p = pairs(keys, m)[i];
            lemma_pairs_belong(keys, m, i);
            let (a, b) = choose|a: int, b: int| #[trigger] belongs_at(keys, m, p, a, b);
            assert(!keys[a].contains('&') && !m[keys[a]][b].contains('&'));
            let t = parts[i];
            if t.contains('&') {
                let j = choose|j: int| 0 <= j < t.len() && t[j] == '&';
                if j < p.0.len() {
                    assert(p.0[j] == '&');
                } else if j > p.0.len() {
                    assert(p.1[j - p.0.len() - 1] == '&');
                } else {
                    assert(t[j] == "="@[0]);
                }
            }
        }
        text::lemma_pieces_joined(parts, '&');
    }
}

/// What `set` wrote is what `get` reads, `append` does not change what `get`
/// reads of a name with values, `delete` leaves nothing, and none of them
/// changes another name.
pub proof fn lemma_changes(m: Values, key: Seq<char>, value: Seq<char>, other: Seq<char>)
    requires
        other != key,
    ensures
        m.insert(key, seq![value])[key] == seq![value],
        m.contains_key(key) && m[key].len() > 0 ==> appended(m, key, value)[key][0] == m[key][0],
        !m.contains_key(key) ==> appended(m, key, value)[key] == seq![value],
        appended(m, key, value)[key].last() == value,
        !m.remove(key).contains_key(key),
        m.insert(key, seq![value]).contains_key(other) == m.contains_key(other),
        appended(m, key, value).contains_key(other) == m.contains_key(other),
        m.remove(key).contains_key(other) == m.contains_key(other),
        m.contains_key(other) ==> {
            &&& m.insert(key, seq![value])[other] == m[other]
            &&& appended(m, key, value)[other] == m[other]
            &&& m.remove(key)[other] == m[other]
        },
{
}

fn copy(l: &Vec<String>) -> (r: Vec<String>)
    ensures
        text::views(r@) == text::views(l@),
{
    let mut r: Vec<String> = Vec::new();
    let mut i: usize = 0;
    while i < l.len()
        invariant
            i <= l.len(),
            r@.len() == i,
            forall|n: int| 0 <= n < i ==> r@[n]@ == l@[n]@,
        decreases l.len() - i,
    {
        r.push(l[i].clone());
        i = i + 1;
    }
    assert(text::views(r@) =~= text::views(l@));
    r
}

/// A piece of a query without `=` is a name that has no value from it; an empty
/// piece is nothing. Values of one name come in the order of the query.
pub proof fn lemma_pieces_read(m: Values, piece: Seq<char>, value: Seq<char>)
    requires
        !piece.contains('='),
    ensures
        piece.len() > 0 ==> with_piece(m, piece).contains_key(piece),
        piece.len() > 0 && !m.contains_key(piece) ==> with_piece(m, piece)[piece].len() == 0,
        m.contains_key(piece) ==> with_piece(m, piece) == m,
        piece.len() == 0 ==> with_piece(m, piece) == m,
        ({
            let r = with_piece(m, piece + seq!['='] + value);
            &&& r.contains_key(piece)
            &&& r[piece].last() == value
            &&& r[piece].len() == (if m.contains_key(piece) {
                m[piece].len() + 1
            } else {
                1
            })
            &&& m.contains_key(piece) ==> m[piece].is_prefix_of(r[piece])
        }),
        forall|k: Seq<char>|
            k != piece && #[trigger] m.contains_key(k) ==> with_piece(m, piece).contains_key(k)
                && with_piece(m, piece)[k] == m[k] && with_piece(m, piece + seq!['='] + value)[k]
                == m[k],
{
    reveal_strlit("=");
    assert("="@ =~= seq!['=']);
    text::lemma_one_piece(piece, '=');
    lemma_read_pair(m, piece, value);
}

/// What `forEach` walks is all the values of all the names: each name with its
/// values in order, and nothing else.
pub proof fn lemma_walked(keys: Seq<Seq<char>>, m: Values, k: Seq<char>)
    requires
        !keys.contains(k),
    ensures
        pairs(keys.push(k), m) == pairs(keys, m) + Seq::new(m[k].len(), |i: int| (k, m[k][i])),
        forall|i: int| 0 <= i < pairs(keys, m).len() ==> (#[trigger] pairs(keys, m)[i]).0 != k,
        firsts(pairs(keys, m)).len() == seconds(pairs(keys, m)).len(),
        forall|i: int|
            0 <= i < pairs(keys, m).len() ==> (#[trigger] pairs(keys, m)[i]).0 == firsts(
                pairs(keys, m),
            )[i] && pairs(keys, m)[i].1 == seconds(pairs(keys, m))[i],
{
    assert(keys.push(k).drop_last() =~= keys);
    assert forall|i: int| 0 <= i < pairs(keys, m).len() implies (#[trigger] pairs(keys, m)[i]).0
        != k by {
        lemma_pairs_belong(keys, m, i);
        let p = pairs(keys, m)[i];
        let (a, b) = choose|a: int, b: int| #[trigger] belongs_at(keys, m, p, a, b);
        assert(keys.contains(keys[a]));
    }
}

/// What is got of a name is what was set, or what was appended first; appending
/// more does not change it, deleting leaves nothing to get.
pub proof fn lemma_got(m: Values, key: Seq<char>, a: Seq<char>, b: Seq<char>)
    ensures
        first_of(m.insert(key, seq![a]), key) == a,
        first_of(appended(m.insert(key, seq![a]), key, b), key) == a,
        !m.contains_key(key) ==> first_of(appended(m, key, a), key) == a,
        first_of(m.remove(key), key).len() == 0,
        m.contains_key(key) && m[key].len() > 0 ==> first_of(appended(m, key, b), key) == first_of(
            m,
            key,
        ),
{
}

} // verus!
