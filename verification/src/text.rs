//! Text as sequences of characters: searching, cutting, trimming, numbers.
//!
//! Positions count characters. The specification functions speak of
//! `Seq<char>`; the executable functions take `&str` and give back positions
//! into, or pieces of, the view of their argument.
use vstd::prelude::*;
use vstd::string::*;

verus! {

/// `String::push` of std: one character is added at the end.
pub assume_specification[ String::push ](s: &mut String, c: char)
    ensures
        final(s)@ == old(s)@.push(c),
;

/// `p` stands in `s` at position `i`.
pub open spec fn occurs_at(s: Seq<char>, p: Seq<char>, i: int) -> bool {
    &&& 0 <= i
    &&& i + p.len() <= s.len()
    &&& s.subrange(i, i + p.len()) == p
}

/// The first position from `from` on at which `p` stands in `s`.
pub open spec fn find_from(s: Seq<char>, p: Seq<char>, from: int) -> Option<int>
    decreases s.len() + 1 - from,
{
    if from < 0 || from + p.len() > s.len() {
        None
    } else if occurs_at(s, p, from) {
        Some(from)
    } else {
        find_from(s, p, from + 1)
    }
}

/// The first position at which `p` stands in `s`.
pub open spec fn find_in(s: Seq<char>, p: Seq<char>) -> Option<int> {
    find_from(s, p, 0)
}

/// `p` stands somewhere in `s`.
pub open spec fn contains_text(s: Seq<char>, p: Seq<char>) -> bool {
    exists|i: int| occurs_at(s, p, i)
}

/// A position as a mathematical integer.
pub open spec fn position(r: Option<usize>) -> Option<int> {
    match r {
        Some(i) => Some(i as int),
        None => None,
    }
}

/// `find_from` gives the least position at which the pattern stands, if there is one.
pub proof fn lemma_find_from(s: Seq<char>, p: Seq<char>, from: int)
    requires
        0 <= from,
    ensures
        match find_from(s, p, from) {
            Some(i) => from <= i && occurs_at(s, p, i) && forall|j: int|
                from <= j < i ==> !occurs_at(s, p, j),
            None => forall|j: int| from <= j ==> !occurs_at(s, p, j),
        },
    decreases s.len() + 1 - from,
{
    if from + p.len() > s.len() {
    } else if occurs_at(s, p, from) {
    } else {
        lemma_find_from(s, p, from + 1);
    }
}

/// A text contains a pattern exactly if the pattern can be found in it.
pub proof fn lemma_contains_iff_found(s: Seq<char>, p: Seq<char>)
    ensures
        contains_text(s, p) <==> find_in(s, p) is Some,
{
    lemma_find_from(s, p, 0);
}

/// The characters of a text.
pub fn chars_of(s: &str) -> (v: Vec<char>)
    ensures
        v@ == s@,
{
    let mut v: Vec<char> = Vec::new();
    for c in it: s.chars()
        invariant
            v@ == s@.take(it.index()),
            it.seq() == s@,
    {
        v.push(c);
    }
    v
}

/// The text that holds the characters `v[from..to]`.
pub fn text_of(v: &[char], from: usize, to: usize) -> (r: String)
    requires
        from <= to <= v@.len(),
    ensures
        r@ == v@.subrange(from as int, to as int),
{
    let mut r: String = String::new();
    let mut i: usize = from;
    while i < to
        invariant
            from <= i <= to <= v@.len(),
            r@ == v@.subrange(from as int, i as int),
        decreases to - i,
    {
        r.push(v[i]);
        i = i + 1;
    }
    r
}

/// The text from position `from` on.
pub fn tail(s: &str, from: usize) -> (r: String)
    requires
        from <= s@.len(),
    ensures
        r@ == s@.skip(from as int),
{
    let v: Vec<char> = chars_of(s);
    text_of(&v, from, v.len())
}

/// The text before position `to`.
pub fn head(s: &str, to: usize) -> (r: String)
    requires
        to <= s@.len(),
    ensures
        r@ == s@.take(to as int),
{
    let v: Vec<char> = chars_of(s);
    text_of(&v, 0, to)
}

/// What stands in `s` before the first occurrence of one of `stops`: all of it if none occurs.
pub open spec fn until_any(s: Seq<char>, stops: Seq<char>) -> Seq<char>
    decreases s.len(),
{
    if s.len() == 0 || stops.contains(s[0]) {
        Seq::empty()
    } else {
        seq![s[0]] + until_any(s.drop_first(), stops)
    }
}

/// What stands in `s` before the first occurrence of one of `stops`.
pub fn before_any(s: &str, stops: &[char]) -> (r: String)
    ensures
        r@ == until_any(s@, stops@),
{
    let v: Vec<char> = chars_of(s);
    let mut i: usize = 0;
    let mut r: String = String::new();
    assert(v@.skip(0) =~= v@);
    while i < v.len()
        invariant
            i <= v.len(),
            v@ == s@,
            r@ + until_any(v@.skip(i as int), stops@) == until_any(s@, stops@),
        decreases v.len() - i,
    {
        let mut hit: bool = false;
        let mut k: usize = 0;
        while k < stops.len()
            invariant
                k <= stops.len(),
                i < v.len(),
                hit == exists|j: int| 0 <= j < k && stops@[j] == v@[i as int],
            decreases stops.len() - k,
        {
            if stops[k] == v[i] {
                hit = true;
            }
            k = k + 1;
        }
        let ghost rest = v@.skip(i as int);
        assert(rest[0] == v@[i as int]);
        assert(hit == stops@.contains(rest[0]));
        if hit {
            return r;
        }
        assert(rest.drop_first() =~= v@.skip(i + 1));
        assert(r@.push(v@[i as int]) + until_any(v@.skip(i + 1), stops@) =~= r@ + (seq![rest[0]]
            + until_any(rest.drop_first(), stops@)));
        r.push(v[i]);
        i = i + 1;
    }
    assert(v@.skip(i as int) =~= Seq::empty());
    r
}

/// Whether a text holds nothing.
pub fn is_empty(s: &str) -> (r: bool)
    ensures
        r == (s@.len() == 0),
{
    s.unicode_len() == 0
}

/// The texts `a` and `b` in a row.
pub fn concat(a: &str, b: &str) -> (r: String)
    ensures
        r@ == a@ + b@,
{
    let mut r: String = a.to_owned();
    r.append(b);
    r
}

/// Whether `p` stands in `v` at position `i`.
pub fn stands_at(v: &[char], p: &[char], i: usize) -> (r: bool)
    ensures
        r == occurs_at(v@, p@, i as int),
{
    if v.len() < p.len() || i > v.len() - p.len() {
        return false;
    }
    let mut k: usize = 0;
    while k < p.len()
        invariant
            k <= p.len(),
            i + p.len() <= v.len(),
            forall|j: int| 0 <= j < k ==> v@[i + j] == p@[j],
        decreases p.len() - k,
    {
        if v[i + k] != p[k] {
            proof {
                assert(v@.subrange(i as int, i + p.len())[k as int] == v@[i + k]);
            }
            return false;
        }
        k = k + 1;
    }
    assert(v@.subrange(i as int, i + p.len()) =~= p@);
    true
}

/// The first position from `from` on at which `p` stands in `v`.
pub fn search(v: &[char], p: &[char], from: usize) -> (r: Option<usize>)
    ensures
        position(r) == find_from(v@, p@, from as int),
{
    let mut i: usize = from;
    while i <= v.len() && p.len() <= v.len() - i
        invariant
            from <= i,
            find_from(v@, p@, from as int) == find_from(v@, p@, i as int),
        decreases v.len() + 1 - i,
    {
        if stands_at(v, p, i) {
            return Some(i);
        }
        if i == v.len() {
            assert(find_from(v@, p@, i + 1) is None);
            return None;
        }
        i = i + 1;
    }
    None
}

/// The first position of `p` in `s`, as `str::find` but counted in characters.
pub fn find(s: &str, p: &str) -> (r: Option<usize>)
    ensures
        position(r) == find_in(s@, p@),
{
    let v: Vec<char> = chars_of(s);
    let q: Vec<char> = chars_of(p);
    search(&v, &q, 0)
}

/// Whether `p` stands somewhere in `s`.
pub fn contains(s: &str, p: &str) -> (r: bool)
    ensures
        r == contains_text(s@, p@),
{
    proof {
        lemma_contains_iff_found(s@, p@);
    }
    find(s, p).is_some()
}


/// `s` begins with `p`.
pub open spec fn begins_with(s: Seq<char>, p: Seq<char>) -> bool {
    occurs_at(s, p, 0)
}

/// `s` ends with `p`.
pub open spec fn finishes_with(s: Seq<char>, p: Seq<char>) -> bool {
    occurs_at(s, p, s.len() - p.len())
}

/// Whether `s` begins with `p`.
pub fn starts_with(s: &str, p: &str) -> (r: bool)
    ensures
        r == begins_with(s@, p@),
{
    let v: Vec<char> = chars_of(s);
    let q: Vec<char> = chars_of(p);
    stands_at(&v, &q, 0)
}

/// Whether `s` ends with `p`.
pub fn ends_with(s: &str, p: &str) -> (r: bool)
    ensures
        r == finishes_with(s@, p@),
{
    let v: Vec<char> = chars_of(s);
    let q: Vec<char> = chars_of(p);
    if q.len() > v.len() {
        return false;
    }
    stands_at(&v, &q, v.len() - q.len())
}

/// Whether two texts are the same.
pub fn same(a: &str, b: &str) -> (r: bool)
    ensures
        r == (a@ == b@),
{
    let v: Vec<char> = chars_of(a);
    let q: Vec<char> = chars_of(b);
    if v.len() != q.len() {
        return false;
    }
    proof {
        if v.len() == q.len() {
            assert(v@.subrange(0, q@.len() as int) =~= v@);
        }
    }
    stands_at(&v, &q, 0)
}

/// The Unicode property White_Space, which `char::is_whitespace` and `str::trim` go by.
pub open spec fn white(c: char) -> bool {
    let n = c as u32;
    ||| 0x09 <= n <= 0x0d
    ||| n == 0x20
    ||| n == 0x85
    ||| n == 0xa0
    ||| n == 0x1680
    ||| 0x2000 <= n <= 0x200a
    ||| n == 0x2028
    ||| n == 0x2029
    ||| n == 0x202f
    ||| n == 0x205f
    ||| n == 0x3000
}

/// Whether a character is white space.
pub fn is_white(c: char) -> (r: bool)
    ensures
        r == white(c),
{
    let n: u32 = c as u32;
    (0x09 <= n && n <= 0x0d) || n == 0x20 || n == 0x85 || n == 0xa0 || n == 0x1680 || (0x2000 <= n
        && n <= 0x200a) || n == 0x2028 || n == 0x2029 || n == 0x202f || n == 0x205f || n == 0x3000
}

/// `s` without the white space in front.
pub open spec fn trimmed_front(s: Seq<char>) -> Seq<char>
    decreases s.len(),
{
    if s.len() > 0 && white(s[0]) {
        trimmed_front(s.drop_first())
    } else {
        s
    }
}

/// `s` without the white space at the end.
pub open spec fn trimmed_back(s: Seq<char>) -> Seq<char>
    decreases s.len(),
{
    if s.len() > 0 && white(s.last()) {
        trimmed_back(s.drop_last())
    } else {
        s
    }
}

/// `s` without the white space at both ends.
pub open spec fn trimmed(s: Seq<char>) -> Seq<char> {
    trimmed_back(trimmed_front(s))
}

/// A text without the white space at both ends, as `str::trim`.
pub fn trim(s: &str) -> (r: String)
    ensures
        r@ == trimmed(s@),
{
    let v: Vec<char> = chars_of(s);
    let mut a: usize = 0;
    assert(v@.skip(0) =~= v@);
    while a < v.len() && is_white(v[a])
        invariant
            a <= v.len(),
            trimmed_front(v@.skip(a as int)) == trimmed_front(v@),
        decreases v.len() - a,
    {
        proof {
            assert(v@.skip(a as int).drop_first() =~= v@.skip(a + 1));
        }
        a = a + 1;
    }
    let ghost front = v@.skip(a as int);
    let mut b: usize = v.len();
    while b > a && is_white(v[b - 1])
        invariant
            a <= b <= v.len(),
            front == v@.skip(a as int),
            trimmed_back(v@.subrange(a as int, b as int)) == trimmed_back(front),
        decreases b,
    {
        proof {
            let cut = v@.subrange(a as int, b as int);
            assert(cut.drop_last() =~= v@.subrange(a as int, b - 1));
        }
        b = b - 1;
    }
    proof {
        let cut = v@.subrange(a as int, b as int);
        assert(trimmed_back(cut) == cut);
    }
    text_of(&v, a, b)
}

/// The pieces of `s` between the occurrences of `p`.
pub open spec fn pieces(s: Seq<char>, p: Seq<char>) -> Seq<Seq<char>>
    decreases s.len(),
{
    match find_in(s, p) {
        Some(i) => if 0 <= i && p.len() > 0 && i + p.len() <= s.len() {
            seq![s.take(i)] + pieces(s.skip(i + p.len()), p)
        } else {
            seq![s]
        },
        None => seq![s],
    }
}

/// The views of a sequence of texts.
pub open spec fn views(v: Seq<String>) -> Seq<Seq<char>> {
    v.map_values(|t: String| t@)
}

/// The texts joined, with `sep` between each two.
pub open spec fn joined(parts: Seq<Seq<char>>, sep: Seq<char>) -> Seq<char>
    decreases parts.len(),
{
    if parts.len() == 0 {
        Seq::empty()
    } else if parts.len() == 1 {
        parts[0]
    } else {
        parts[0] + sep + joined(parts.drop_first(), sep)
    }
}

/// Searching a text from `k` on is searching its tail.
pub proof fn lemma_find_skip(s: Seq<char>, p: Seq<char>, k: int, from: int)
    requires
        0 <= k <= s.len(),
        0 <= from,
    ensures
        match find_from(s.skip(k), p, from) {
            Some(i) => find_from(s, p, k + from) == Some(k + i),
            None => find_from(s, p, k + from) is None,
        },
    decreases s.len() + 1 - from,
{
    let t = s.skip(k);
    if from + p.len() > t.len() {
    } else {
        assert(t.subrange(from, from + p.len()) =~= s.subrange(k + from, k + from + p.len()));
        if !occurs_at(t, p, from) {
            lemma_find_skip(s, p, k, from + 1);
        }
    }
}

/// The first occurrence of a character that does not occur in `a` is behind `a`.
pub proof fn lemma_find_first(a: Seq<char>, c: char, rest: Seq<char>)
    requires
        !a.contains(c),
    ensures
        find_in(a + seq![c] + rest, seq![c]) == Some(a.len() as int),
{
    let s = a + seq![c] + rest;
    let p = seq![c];
    lemma_find_from(s, p, 0);
    assert(s.subrange(a.len() as int, a.len() as int + 1) =~= p);
    assert(occurs_at(s, p, a.len() as int));
    let i = find_in(s, p)->0;
    if i < a.len() {
        assert(s.subrange(i, i + 1)[0] == a[i]);
        assert(a.contains(a[i]));
    }
}

/// The first piece of a text is what stands before the separator.
pub proof fn lemma_pieces_front(a: Seq<char>, c: char, rest: Seq<char>)
    requires
        !a.contains(c),
    ensures
        pieces(a + seq![c] + rest, seq![c]) == seq![a] + pieces(rest, seq![c]),
{
    let s = a + seq![c] + rest;
    lemma_find_first(a, c, rest);
    assert(s.take(a.len() as int) =~= a);
    assert(s.skip(a.len() as int + 1) =~= rest);
}

/// A text cut into pieces and joined again with the same separator is the text.
pub proof fn lemma_joined_pieces(s: Seq<char>, p: Seq<char>)
    requires
        p.len() > 0,
    ensures
        pieces(s, p).len() > 0,
        joined(pieces(s, p), p) == s,
    decreases s.len(),
{
    lemma_find_from(s, p, 0);
    match find_in(s, p) {
        Some(i) => {
            let rest = s.skip(i + p.len());
            lemma_joined_pieces(rest, p);
            assert(pieces(s, p).drop_first() =~= pieces(rest, p));
            assert(s =~= s.take(i) + p + rest);
        },
        None => {},
    }
}

/// A text without the separator is one piece.
pub proof fn lemma_one_piece(a: Seq<char>, c: char)
    requires
        !a.contains(c),
    ensures
        find_in(a, seq![c]) is None,
        pieces(a, seq![c]) == seq![a],
{
    let p = seq![c];
    lemma_find_from(a, p, 0);
    if find_in(a, p) is Some {
        let i = find_in(a, p)->0;
        assert(a.subrange(i, i + 1)[0] == a[i]);
        assert(a.contains(a[i]));
    }
}

/// Texts without the separator, joined by it and cut again, are the texts.
pub proof fn lemma_pieces_joined(parts: Seq<Seq<char>>, c: char)
    requires
        parts.len() > 0,
        forall|i: int| 0 <= i < parts.len() ==> !(#[trigger] parts[i]).contains(c),
    ensures
        pieces(joined(parts, seq![c]), seq![c]) == parts,
    decreases parts.len(),
{
    if parts.len() == 1 {
        lemma_one_piece(parts[0], c);
    } else {
        let rest = parts.drop_first();
        assert forall|i: int| 0 <= i < rest.len() implies !(#[trigger] rest[i]).contains(c) by {
            assert(rest[i] == parts[i + 1]);
        }
        lemma_pieces_joined(rest, c);
        lemma_pieces_front(parts[0], c, joined(rest, seq![c]));
        assert(seq![parts[0]] + rest =~= parts);
    }
}

/// The pieces of `s` between the occurrences of `p`, as `str::split`.
pub fn split(s: &str, p: &str) -> (r: Vec<String>)
    requires
        p@.len() > 0,
    ensures
        views(r@) == pieces(s@, p@),
{
    let v: Vec<char> = chars_of(s);
    let q: Vec<char> = chars_of(p);
    let mut r: Vec<String> = Vec::new();
    let mut start: usize = 0;
    assert(v@.skip(0) =~= v@);
    assert(views(r@) =~= Seq::empty());
    loop
        invariant
            start <= v.len(),
            q@ == p@,
            v@ == s@,
            q@.len() > 0,
            views(r@) + pieces(v@.skip(start as int), q@) == pieces(s@, p@),
        decreases v.len() - start,
    {
        let ghost rest = v@.skip(start as int);
        proof {
            lemma_find_skip(v@, q@, start as int, 0);
            lemma_find_from(rest, q@, 0);
        }
        match search(&v, &q, start) {
            Some(i) => {
                let piece: String = text_of(&v, start, i);
                proof {
                    assert(piece@ =~= rest.take(i - start));
                    assert(rest.skip(i - start + q@.len()) =~= v@.skip(i + q@.len()));
                    assert(views(r@.push(piece)) =~= views(r@).push(piece@));
                }
                let ghost before = views(r@);
                r.push(piece);
                start = i + q.len();
                assert(before + (seq![piece@] + pieces(v@.skip(start as int), q@)) =~= views(r@)
                    + pieces(v@.skip(start as int), q@));
            },
            None => {
                let piece: String = text_of(&v, start, v.len());
                proof {
                    assert(piece@ =~= rest);
                    assert(views(r@.push(piece)) =~= views(r@) + seq![piece@]);
                }
                r.push(piece);
                return r;
            },
        }
    }
}

/// Texts joined with `sep` between each two, as `[String]::join`.
pub fn join(parts: &[String], sep: &str) -> (r: String)
    ensures
        r@ == joined(views(parts@), sep@),
{
    let mut r: String = String::new();
    let mut i: usize = parts.len();
    while i > 0
        invariant
            i <= parts.len(),
            r@ == joined(views(parts@.skip(i as int)), sep@),
        decreases i,
    {
        let ghost tail = views(parts@.skip(i as int));
        i = i - 1;
        proof {
            let now = views(parts@.skip(i as int));
            assert(now.drop_first() =~= tail);
            assert(now[0] == parts@[i as int]@);
        }
        let mut t: String = parts[i].clone();
        if i + 1 < parts.len() {
            t.append(sep);
            t.append(r.as_str());
        }
        r = t;
    }
    assert(parts@.skip(0) =~= parts@);
    r
}

/// A decimal digit as a character.
pub open spec fn digit(d: nat) -> char {
    ((0x30 + d) as u32) as char
}

/// A number in decimal notation.
pub open spec fn decimal(n: nat) -> Seq<char>
    decreases n,
{
    if n < 10 {
        seq![digit(n)]
    } else {
        decimal(n / 10).push(digit(n % 10))
    }
}

/// A number in decimal notation.
pub fn decimal_text(n: u128) -> (r: String)
    ensures
        r@ == decimal(n as nat),
    decreases n,
{
    let mut r: String = if n < 10 {
        String::new()
    } else {
        decimal_text(n / 10)
    };
    let d: u8 = (n % 10) as u8;
    r.push((0x30 + d) as char);
    r
}

/// The texts `a`, `b` and `c` in a row.
pub fn concat3(a: &str, b: &str, c: &str) -> (r: String)
    ensures
        r@ == a@ + b@ + c@,
{
    let mut r: String = a.to_owned();
    r.append(b);
    r.append(c);
    r
}

/// The lower case of an ASCII letter; any other character as it is.
pub open spec fn ascii_lower(c: char) -> char {
    if 'A' <= c <= 'Z' {
        ((c as u32 + 0x20) as u32) as char
    } else {
        c
    }
}

/// The upper case of an ASCII letter; any other character as it is.
pub open spec fn ascii_upper(c: char) -> char {
    if 'a' <= c <= 'z' {
        ((c as u32 - 0x20) as u32) as char
    } else {
        c
    }
}

/// A text with its ASCII letters in lower case.
pub open spec fn ascii_lowered(s: Seq<char>) -> Seq<char> {
    s.map_values(|c: char| ascii_lower(c))
}

/// A text with its ASCII letters in upper case.
pub open spec fn ascii_uppered(s: Seq<char>) -> Seq<char> {
    s.map_values(|c: char| ascii_upper(c))
}

/// The texts are equal but for the case of ASCII letters.
pub open spec fn equal_ignoring_case(a: Seq<char>, b: Seq<char>) -> bool {
    ascii_lowered(a) == ascii_lowered(b)
}

fn lower(c: char) -> (r: char)
    ensures
        r == ascii_lower(c),
{
    if 'A' <= c && c <= 'Z' {
        ((c as u8) + 0x20) as char
    } else {
        c
    }
}

/// Whether two texts are equal but for the case of ASCII letters, as
/// `str::eq_ignore_ascii_case`.
pub fn same_ignoring_case(a: &str, b: &str) -> (r: bool)
    ensures
        r == equal_ignoring_case(a@, b@),
{
    let v: Vec<char> = chars_of(a);
    let q: Vec<char> = chars_of(b);
    let ghost la = ascii_lowered(a@);
    let ghost lb = ascii_lowered(b@);
    if v.len() != q.len() {
        assert(la.len() != lb.len());
        return false;
    }
    let mut i: usize = 0;
    while i < v.len()
        invariant
            i <= v.len(),
            v.len() == q.len(),
            v@ == a@,
            q@ == b@,
            la == ascii_lowered(a@),
            lb == ascii_lowered(b@),
            forall|j: int| 0 <= j < i ==> la[j] == lb[j],
        decreases v.len() - i,
    {
        if lower(v[i]) != lower(q[i]) {
            assert(la[i as int] != lb[i as int]);
            return false;
        }
        i = i + 1;
    }
    assert(la =~= lb);
    true
}

/// The first place at which a pattern stands is where it is found.
pub proof fn lemma_found_at(s: Seq<char>, p: Seq<char>, i: int)
    requires
        occurs_at(s, p, i),
        forall|j: int| 0 <= j < i ==> !occurs_at(s, p, j),
    ensures
        find_in(s, p) == Some(i),
{
    lemma_find_from(s, p, 0);
}

/// A pattern stands only where its first character does.
pub proof fn lemma_occurs_chars(s: Seq<char>, p: Seq<char>, i: int, k: int)
    requires
        occurs_at(s, p, i),
        0 <= k < p.len(),
    ensures
        s[i + k] == p[k],
{
    assert(s.subrange(i, i + p.len())[k] == s[i + k]);
}

/// The first piece of a text is what stands before the separator, where the
/// separator's first character occurs in it only once.
pub proof fn lemma_piece_before(a: Seq<char>, p: Seq<char>, rest: Seq<char>)
    requires
        p.len() > 0,
        forall|k: int| 1 <= k < p.len() ==> #[trigger] p[k] != p[0],
        !contains_text(a, p),
    ensures
        pieces(a + p + rest, p) == seq![a] + pieces(rest, p),
{
    let s = a + p + rest;
    let n = a.len() as int;
    assert(s.subrange(n, n + p.len()) =~= p);
    assert forall|j: int| 0 <= j < n implies !occurs_at(s, p, j) by {
        if occurs_at(s, p, j) {
            if j + p.len() <= n {
                assert(a.subrange(j, j + p.len()) =~= s.subrange(j, j + p.len()));
                assert(occurs_at(a, p, j));
            } else {
                lemma_occurs_chars(s, p, j, n - j);
                assert(s[n] == p[0]);
            }
        }
    }
    lemma_found_at(s, p, n);
    assert(s.take(n) =~= a);
    assert(s.skip(n + p.len()) =~= rest);
}

/// Texts that do not hold the separator, joined by it and cut again, are the
/// texts, where the separator's first character occurs in it only once.
pub proof fn lemma_pieces_joined_by(parts: Seq<Seq<char>>, p: Seq<char>)
    requires
        parts.len() > 0,
        p.len() > 0,
        forall|k: int| 1 <= k < p.len() ==> #[trigger] p[k] != p[0],
        forall|i: int| 0 <= i < parts.len() ==> !contains_text(#[trigger] parts[i], p),
    ensures
        pieces(joined(parts, p), p) == parts,
    decreases parts.len(),
{
    assert(!contains_text(parts[0], p));
    if parts.len() == 1 {
        lemma_contains_iff_found(parts[0], p);
        assert(seq![parts[0]] =~= parts);
    } else {
        let rest = parts.drop_first();
        assert forall|i: int| 0 <= i < rest.len() implies !contains_text(#[trigger] rest[i], p) by {
            assert(rest[i] == parts[i + 1]);
        }
        lemma_pieces_joined_by(rest, p);
        lemma_piece_before(parts[0], p, joined(rest, p));
        assert(seq![parts[0]] + rest =~= parts);
    }
}

/// A text that neither begins nor ends with white space is not trimmed.
pub proof fn lemma_trimmed_same(s: Seq<char>)
    requires
        s.len() > 0 ==> !white(s[0]) && !white(s.last()),
    ensures
        trimmed(s) == s,
{
}

/// White space around a text is trimmed away, and nothing else.
pub proof fn lemma_trimmed(a: Seq<char>, s: Seq<char>, b: Seq<char>)
    requires
        s.len() > 0,
        !white(s[0]),
        !white(s.last()),
        forall|i: int| 0 <= i < a.len() ==> white(#[trigger] a[i]),
        forall|i: int| 0 <= i < b.len() ==> white(#[trigger] b[i]),
    ensures
        trimmed(a + s + b) == s,
{
    lemma_trimmed_front_away(a, s + b);
    assert(a + s + b =~= a + (s + b));
    lemma_trimmed_back_away(s, b);
}

proof fn lemma_trimmed_front_away(a: Seq<char>, s: Seq<char>)
    requires
        s.len() > 0,
        !white(s[0]),
        forall|i: int| 0 <= i < a.len() ==> white(#[trigger] a[i]),
    ensures
        trimmed_front(a + s) == s,
    decreases a.len(),
{
    if a.len() == 0 {
        assert(a + s =~= s);
    } else {
        assert((a + s).drop_first() =~= a.drop_first() + s);
        lemma_trimmed_front_away(a.drop_first(), s);
    }
}

proof fn lemma_trimmed_back_away(s: Seq<char>, b: Seq<char>)
    requires
        s.len() > 0,
        !white(s.last()),
        forall|i: int| 0 <= i < b.len() ==> white(#[trigger] b[i]),
    ensures
        trimmed_back(s + b) == s,
    decreases b.len(),
{
    if b.len() == 0 {
        assert(s + b =~= s);
    } else {
        assert((s + b).drop_last() =~= s + b.drop_last());
        lemma_trimmed_back_away(s, b.drop_last());
    }
}

/// The white space of ASCII is white space: the space, the tab, the line feed,
/// the carriage return. What can be seen in ASCII is not.
pub proof fn lemma_ascii_white(c: char)
    requires
        (c as u32) < 0x80,
    ensures
        white(c) <==> c == ' ' || c == '\t' || c == '\n' || c == '\r' || c as u32 == 0x0b || c as u32
            == 0x0c,
{
}

/// Numbers that differ are written differently, in digits alone, and a number
/// with one digit behind it is ten times as large and the digit more.
pub proof fn lemma_decimal(n: nat, d: nat)
    requires
        d < 10,
    ensures
        n > 0 ==> decimal(10 * n + d) == decimal(n) + decimal(d),
        decimal(d).len() == 1,
        decimal(d)[0] as int == '0' as int + d,
{
    if n > 0 {
        assert((10 * n + d) / 10 == n);
        assert((10 * n + d) % 10 == d);
        assert(decimal(10 * n + d) =~= decimal(n) + decimal(d));
    }
}

/// Letters are the same but for their case if the one is 32 behind the other in
/// ASCII; no two other characters are taken for the same.
pub proof fn lemma_ignoring_case(c: char, d: char)
    ensures
        equal_ignoring_case(seq![c], seq![d]) <==> c == d || ('A' <= c <= 'Z' && d as int == c as int
            + 32) || ('A' <= d <= 'Z' && c as int == d as int + 32),
{
    let a = ascii_lowered(seq![c]);
    let b = ascii_lowered(seq![d]);
    assert(a[0] == ascii_lower(c) && b[0] == ascii_lower(d));
    if ascii_lower(c) == ascii_lower(d) {
        assert(a =~= b);
    }
}

/// Texts are compared without case character by character.
pub proof fn lemma_ignoring_case_each(a: Seq<char>, b: Seq<char>)
    ensures
        equal_ignoring_case(a, b) <==> a.len() == b.len() && forall|i: int|
            0 <= i < a.len() ==> equal_ignoring_case(seq![#[trigger] a[i]], seq![b[i]]),
{
    let x = ascii_lowered(a);
    let y = ascii_lowered(b);
    assert(x.len() == a.len() && y.len() == b.len());
    if equal_ignoring_case(a, b) {
        assert forall|i: int| 0 <= i < a.len() implies equal_ignoring_case(
            seq![#[trigger] a[i]],
            seq![b[i]],
        ) by {
            assert(x[i] == y[i]);
            assert(x[i] == ascii_lower(a[i]) && y[i] == ascii_lower(b[i]));
            assert(ascii_lowered(seq![a[i]]) =~= ascii_lowered(seq![b[i]]));
        }
    }
    if a.len() == b.len() && forall|i: int|
        0 <= i < a.len() ==> equal_ignoring_case(seq![#[trigger] a[i]], seq![b[i]]) {
        assert forall|i: int| 0 <= i < a.len() implies x[i] == y[i] by {
            assert(equal_ignoring_case(seq![a[i]], seq![b[i]]));
            assert(ascii_lowered(seq![a[i]])[0] == x[i]);
            assert(ascii_lowered(seq![b[i]])[0] == y[i]);
        }
        assert(x =~= y);
    }
}

/// What is left of a trimmed text begins and ends with no white space, and is a
/// part of the text.
pub proof fn lemma_trimmed_part(s: Seq<char>)
    ensures
        trimmed(s).len() > 0 ==> !white(trimmed(s)[0]) && !white(trimmed(s).last()),
        contains_text(s, trimmed(s)),
        forall|i: int| 0 <= i < trimmed(s).len() ==> s.contains(#[trigger] trimmed(s)[i]),
{
    lemma_trimmed_front_part(s);
    let t = trimmed_front(s);
    lemma_trimmed_back_part(t);
    let r = trimmed(s);
    let k = s.len() - t.len();
    assert(s.subrange(k, k + r.len()) =~= r) by {
        assert(t =~= s.skip(k));
        assert(r =~= t.take(r.len() as int));
    }
    assert(occurs_at(s, r, k));
    assert forall|i: int| 0 <= i < r.len() implies s.contains(#[trigger] r[i]) by {
        assert(s.subrange(k, k + r.len())[i] == s[k + i]);
    }
}

proof fn lemma_trimmed_front_part(s: Seq<char>)
    ensures
        trimmed_front(s).len() <= s.len(),
        trimmed_front(s) == s.skip(s.len() - trimmed_front(s).len()),
        trimmed_front(s).len() > 0 ==> !white(trimmed_front(s)[0]),
    decreases s.len(),
{
    if s.len() > 0 && white(s[0]) {
        lemma_trimmed_front_part(s.drop_first());
        let t = trimmed_front(s);
        assert(s.drop_first().skip(s.len() - 1 - t.len()) =~= s.skip(s.len() - t.len()));
    } else {
        assert(s.skip(0) =~= s);
    }
}

proof fn lemma_trimmed_back_part(s: Seq<char>)
    ensures
        trimmed_back(s).len() <= s.len(),
        trimmed_back(s) == s.take(trimmed_back(s).len() as int),
        trimmed_back(s).len() > 0 ==> !white(trimmed_back(s).last()),
    decreases s.len(),
{
    if s.len() > 0 && white(s.last()) {
        lemma_trimmed_back_part(s.drop_last());
        let t = trimmed_back(s);
        assert(s.drop_last().take(t.len() as int) =~= s.take(t.len() as int));
    } else {
        assert(s.take(s.len() as int) =~= s);
    }
}

/// Upper case changes the letters `a` to `z` to those 32 before them in ASCII,
/// each at its place, and lower case undoes that; nothing else is changed.
pub proof fn lemma_cases(s: Seq<char>, i: int)
    requires
        0 <= i < s.len(),
    ensures
        ascii_uppered(s).len() == s.len(),
        ascii_lowered(s).len() == s.len(),
        'a' <= s[i] <= 'z' ==> ascii_uppered(s)[i] as int == s[i] as int - 32,
        !('a' <= s[i] <= 'z') ==> ascii_uppered(s)[i] == s[i],
        'A' <= s[i] <= 'Z' ==> ascii_lowered(s)[i] as int == s[i] as int + 32,
        !('A' <= s[i] <= 'Z') ==> ascii_lowered(s)[i] == s[i],
        ascii_lowered(ascii_uppered(s))[i] == ascii_lowered(s)[i],
{
}

/// A text begins with another exactly if that is its front, and ends with it
/// exactly if that is its end.
pub proof fn lemma_ends(s: Seq<char>, p: Seq<char>, r: Seq<char>)
    ensures
        begins_with(p + r, p),
        finishes_with(r + p, p),
        begins_with(s, p) ==> p.len() <= s.len() && s.take(p.len() as int) == p,
        finishes_with(s, p) ==> p.len() <= s.len() && s.skip(s.len() - p.len()) == p,
{
    assert((p + r).subrange(0, p.len() as int) =~= p);
    assert((r + p).subrange(r.len() as int, r.len() as int + p.len()) =~= p);
    if begins_with(s, p) {
        assert(s.take(p.len() as int) =~= s.subrange(0, p.len() as int));
    }
    if finishes_with(s, p) {
        assert(s.skip(s.len() - p.len()) =~= s.subrange(s.len() - p.len(), s.len() as int));
    }
}

/// What stands before a stop is all that comes before the first of the stops;
/// without a stop it is the whole text.
pub proof fn lemma_until_stop(a: Seq<char>, c: char, b: Seq<char>, stops: Seq<char>)
    requires
        stops.contains(c),
        forall|i: int| 0 <= i < a.len() ==> !stops.contains(#[trigger] a[i]),
    ensures
        until_any(a + seq![c] + b, stops) == a,
        until_any(a, stops) == a,
    decreases a.len(),
{
    let s = a + seq![c] + b;
    if a.len() == 0 {
        assert(s[0] == c);
        assert(a =~= Seq::empty());
    } else {
        let rest = a.drop_first();
        assert forall|i: int| 0 <= i < rest.len() implies !stops.contains(#[trigger] rest[i]) by {
            assert(rest[i] == a[i + 1]);
        }
        lemma_until_stop(rest, c, b, stops);
        assert(s.drop_first() =~= rest + seq![c] + b);
        assert(s[0] == a[0]);
        assert(seq![a[0]] + rest =~= a);
    }
}

} // verus!
