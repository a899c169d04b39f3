//! Encodings of text: UTF-8 and base64, and the script functions `atob`,
//! `btoa`, `TextEncoder.encode` and `TextDecoder.decode` that rest on them.
use vstd::prelude::*;
use vstd::string::*;

use base64::Engine;

verus! {

/// The byte at place `i`, or zero past the end.
pub open spec fn byte_or_zero(b: Seq<u8>, i: int) -> int {
    if 0 <= i < b.len() {
        b[i] as int
    } else {
        0
    }
}

/// The group of six bits at place `i` of the bytes `b`: four of them make three bytes.
pub open spec fn sextet(b: Seq<u8>, i: int) -> int {
    let g = 3 * (i / 4);
    let w = byte_or_zero(b, g) * 0x10000 + byte_or_zero(b, g + 1) * 0x100 + byte_or_zero(b, g + 2);
    if i % 4 == 0 {
        w / 0x40000
    } else if i % 4 == 1 {
        (w / 0x1000) % 64
    } else if i % 4 == 2 {
        (w / 64) % 64
    } else {
        w % 64
    }
}

/// The symbol that stands for six bits, in the standard or the URL-safe alphabet of RFC 4648.
pub open spec fn symbol(v: int, url_safe: bool) -> char {
    if v < 26 {
        ((0x41 + v) as u32) as char
    } else if v < 52 {
        ((0x61 + v - 26) as u32) as char
    } else if v < 62 {
        ((0x30 + v - 52) as u32) as char
    } else if v == 62 {
        if url_safe {
            '-'
        } else {
            '+'
        }
    } else if url_safe {
        '_'
    } else {
        '/'
    }
}

/// How many groups of six bits hold `n` bytes.
pub open spec fn symbol_count(n: nat) -> nat {
    (8 * n + 5) / 6
}

/// The bytes `b` in base64 with the standard alphabet, padded with `=` to whole groups of four.
pub open spec fn base64_text(b: Seq<u8>) -> Seq<char> {
    Seq::new(
        4 * ((b.len() + 2) / 3),
        |i: int|
            if i < symbol_count(b.len()) {
                symbol(sextet(b, i), false)
            } else {
                '='
            },
    )
}

/// The bytes `b` in base64 with the URL-safe alphabet, without padding.
pub open spec fn base64_url_text(b: Seq<u8>) -> Seq<char> {
    Seq::new(symbol_count(b.len()), |i: int| symbol(sextet(b, i), true))
}

/// The bytes that `s` stands for in padded base64 with the standard alphabet.
pub open spec fn base64_bytes(s: Seq<char>) -> Option<Seq<u8>> {
    if exists|b: Seq<u8>| base64_text(b) == s {
        Some(choose|b: Seq<u8>| base64_text(b) == s)
    } else {
        None
    }
}

/// The bytes that `s` stands for in base64 without padding with the URL-safe alphabet.
pub open spec fn base64_url_bytes(s: Seq<char>) -> Option<Seq<u8>> {
    if exists|b: Seq<u8>| base64_url_text(b) == s {
        Some(choose|b: Seq<u8>| base64_url_text(b) == s)
    } else {
        None
    }
}

/// The bytes in a result, if there are any.
pub open spec fn bytes_view(r: Option<Vec<u8>>) -> Option<Seq<u8>> {
    match r {
        Some(v) => Some(v@),
        None => None,
    }
}

/// The text in a result, if there is one.
pub open spec fn text_view(r: Option<String>) -> Option<Seq<char>> {
    match r {
        Some(t) => Some(t@),
        None => None,
    }
}

/// What `String::from_utf8_lossy` of std makes of bytes.
pub uninterp spec fn lossy_text(b: Seq<u8>) -> Seq<char>;

/// `String::from_utf8_lossy` of std: bytes that are valid UTF-8 give the text
/// that they encode. What stands in the place of other bytes is left to the name.
#[verifier::external_body]
pub(crate) fn utf8_lossy(b: &[u8]) -> (r: String)
    ensures
        r@ == lossy_text(b@),
        vstd::utf8::valid_utf8(b@) ==> r@ == vstd::utf8::decode_utf8(b@),
{
    String::from_utf8_lossy(b).into_owned()
}

/// `Engine::encode` of the `base64` crate, with its engine `STANDARD`: the
/// bytes in padded base64 with the standard alphabet.
#[verifier::external_body]
pub(crate) fn base64_encode(b: &[u8]) -> (r: String)
    ensures
        r@ == base64_text(b@),
{
    base64::engine::general_purpose::STANDARD.encode(b)
}

/// `Engine::decode` of the `base64` crate, with its engine `STANDARD`, which
/// requires the padding and accepts no trailing bits: it accepts exactly what
/// encoding gives, and gives back what was encoded.
#[verifier::external_body]
pub(crate) fn base64_decode(s: &str) -> (r: Option<Vec<u8>>)
    ensures
        bytes_view(r) == base64_bytes(s@),
{
    base64::engine::general_purpose::STANDARD.decode(s).ok()
}

/// `Engine::decode` of the `base64` crate, with its engine `URL_SAFE_NO_PAD`,
/// which refuses padding and trailing bits: it accepts exactly what encoding
/// without padding in the URL-safe alphabet gives, and gives back what was encoded.
#[verifier::external_body]
pub(crate) fn base64_url_decode(s: &str) -> (r: Option<Vec<u8>>)
    ensures
        bytes_view(r) == base64_url_bytes(s@),
{
    base64::engine::general_purpose::URL_SAFE_NO_PAD.decode(s).ok()
}

proof fn lemma_sextet_range(b: Seq<u8>, i: int)
    requires
        0 <= i,
    ensures
        0 <= sextet(b, i) < 64,
{
}

proof fn lemma_symbol_injective(x: int, y: int, url_safe: bool)
    requires
        0 <= x < 64,
        0 <= y < 64,
        symbol(x, url_safe) == symbol(y, url_safe),
    ensures
        x == y,
{
}

proof fn lemma_split_word(x: int, y: int, z: int)
    requires
        0 <= x < 256,
        0 <= y < 256,
        0 <= z < 256,
    ensures
        ({
            let w = x * 0x10000 + y * 0x100 + z;
            &&& x == (w / 0x40000) * 4 + ((w / 0x1000) % 64) / 16
            &&& y == (((w / 0x1000) % 64) % 16) * 16 + ((w / 64) % 64) / 4
            &&& z == (((w / 64) % 64) % 4) * 64 + w % 64
        }),
{
    let w = x * 0x10000 + y * 0x100 + z;
    let t = y * 0x100 + z;
    let u = (x % 4) * 16 + y / 16;
    assert(w / 0x40000 == x / 4) by {
        assert(w == (x / 4) * 0x40000 + (x % 4) * 0x10000 + t);
    }
    assert(w / 0x1000 == x * 16 + y / 16);
    assert(x * 16 + y / 16 == (x / 4) * 64 + u);
    assert((w / 0x1000) % 64 == u);
    assert(w / 64 == x * 1024 + y * 4 + z / 64);
    assert(x * 1024 + y * 4 + z / 64 == (x * 16 + y / 16) * 64 + (y % 16) * 4 + z / 64);
    assert((w / 64) % 64 == (y % 16) * 4 + z / 64);
    assert(w % 64 == z % 64);
}

proof fn lemma_count_injective(m: nat, n: nat)
    requires
        symbol_count(m) == symbol_count(n),
    ensures
        m == n,
{
}

proof fn lemma_byte_from_sextets(b: Seq<u8>, j: int)
    requires
        0 <= j < b.len(),
    ensures
        ({
            let i = 4 * (j / 3);
            b[j] == if j % 3 == 0 {
                sextet(b, i) * 4 + sextet(b, i + 1) / 16
            } else if j % 3 == 1 {
                (sextet(b, i + 1) % 16) * 16 + sextet(b, i + 2) / 4
            } else {
                (sextet(b, i + 2) % 4) * 64 + sextet(b, i + 3)
            }
        }),
{
    let i = 4 * (j / 3);
    let g = 3 * (j / 3);
    assert((i / 4) == j / 3 && ((i + 1) / 4) == j / 3 && ((i + 2) / 4) == j / 3 && ((i + 3) / 4) == j
        / 3);
    assert(i % 4 == 0 && (i + 1) % 4 == 1 && (i + 2) % 4 == 2 && (i + 3) % 4 == 3);
    lemma_split_word(byte_or_zero(b, g), byte_or_zero(b, g + 1), byte_or_zero(b, g + 2));
    assert(j == g + j % 3);
}

proof fn lemma_same_bytes(a: Seq<u8>, b: Seq<u8>)
    requires
        a.len() == b.len(),
        forall|i: int| 0 <= i < symbol_count(a.len()) ==> #[trigger] sextet(a, i) == sextet(b, i),
    ensures
        a == b,
{
    assert forall|j: int| 0 <= j < a.len() implies a[j] == b[j] by {
        lemma_byte_from_sextets(a, j);
        lemma_byte_from_sextets(b, j);
        let i = 4 * (j / 3);
        assert(sextet(a, i) == sextet(b, i));
        assert(sextet(a, i + 1) == sextet(b, i + 1));
        if j % 3 >= 1 {
            assert(sextet(a, i + 2) == sextet(b, i + 2));
        }
        if j % 3 == 2 {
            assert(sextet(a, i + 3) == sextet(b, i + 3));
        }
    }
    assert(a =~= b);
}

/// Different bytes have different padded base64 texts, so that a text stands
/// for at most one sequence of bytes.
pub proof fn lemma_base64_injective(a: Seq<u8>, b: Seq<u8>)
    requires
        base64_text(a) == base64_text(b),
    ensures
        a == b,
{
    let s = base64_text(a);
    let t = base64_text(b);
    assert(s.len() == t.len());
    let m = symbol_count(a.len()) as int;
    let n = symbol_count(b.len()) as int;
    assert(m <= s.len() && n <= t.len());
    if m < n {
        assert(s[m] == '=');
        lemma_sextet_range(b, m);
        assert(t[m] == symbol(sextet(b, m), false));
    }
    if n < m {
        assert(t[n] == '=');
        lemma_sextet_range(a, n);
        assert(s[n] == symbol(sextet(a, n), false));
    }
    lemma_count_injective(a.len(), b.len());
    assert forall|i: int| 0 <= i < m implies #[trigger] sextet(a, i) == sextet(b, i) by {
        lemma_sextet_range(a, i);
        lemma_sextet_range(b, i);
        assert(s[i] == symbol(sextet(a, i), false));
        assert(t[i] == symbol(sextet(b, i), false));
        lemma_symbol_injective(sextet(a, i), sextet(b, i), false);
    }
    lemma_same_bytes(a, b);
}

/// Different bytes have different URL-safe base64 texts.
pub proof fn lemma_base64_url_injective(a: Seq<u8>, b: Seq<u8>)
    requires
        base64_url_text(a) == base64_url_text(b),
    ensures
        a == b,
{
    let s = base64_url_text(a);
    let t = base64_url_text(b);
    assert(s.len() == symbol_count(a.len()));
    assert(t.len() == symbol_count(b.len()));
    lemma_count_injective(a.len(), b.len());
    assert forall|i: int| 0 <= i < symbol_count(a.len()) implies #[trigger] sextet(a, i) == sextet(
        b,
        i,
    ) by {
        lemma_sextet_range(a, i);
        lemma_sextet_range(b, i);
        assert(s[i] == symbol(sextet(a, i), true));
        assert(t[i] == symbol(sextet(b, i), true));
        lemma_symbol_injective(sextet(a, i), sextet(b, i), true);
    }
    lemma_same_bytes(a, b);
}

/// Decoding gives back the bytes that were encoded, in either alphabet.
pub proof fn lemma_base64_round_trip(b: Seq<u8>)
    ensures
        base64_bytes(base64_text(b)) == Some(b),
        base64_url_bytes(base64_url_text(b)) == Some(b),
{
    let c = choose|c: Seq<u8>| base64_text(c) == base64_text(b);
    lemma_base64_injective(c, b);
    let d = choose|d: Seq<u8>| base64_url_text(d) == base64_url_text(b);
    lemma_base64_url_injective(d, b);
}

/// Base64 with the URL-safe alphabet is written in letters, digits, `-` and `_`;
/// with the standard one in letters, digits, `+`, `/` and the padding `=`.
pub proof fn lemma_url_alphabet(b: Seq<u8>, i: int)
    ensures
        0 <= i < base64_url_text(b).len() ==> {
            let c = base64_url_text(b)[i];
            ('A' <= c <= 'Z') || ('a' <= c <= 'z') || ('0' <= c <= '9') || c == '-' || c == '_'
        },
        0 <= i < base64_text(b).len() ==> {
            let c = base64_text(b)[i];
            ('A' <= c <= 'Z') || ('a' <= c <= 'z') || ('0' <= c <= '9') || c == '+' || c == '/' || c
                == '='
        },
{
    if 0 <= i {
        lemma_sextet_range(b, i);
    }
}

/// What `btoa` makes of a text: its UTF-8 bytes in base64.
pub open spec fn btoa_text(s: Seq<char>) -> Seq<char> {
    base64_text(vstd::utf8::encode_utf8(s))
}

/// What `atob` makes of a text: the text that its bytes encode, where the bytes
/// are taken from standard base64 if the text is such, else from URL-safe
/// base64 if it is that.
pub open spec fn atob_text(s: Seq<char>) -> Option<Seq<char>> {
    match base64_bytes(s) {
        Some(b) => Some(lossy_text(b)),
        None => match base64_url_bytes(s) {
            Some(b) => Some(lossy_text(b)),
            None => None,
        },
    }
}

/// The script function `btoa`.
pub fn btoa(s: &str) -> (r: String)
    ensures
        r@ == btoa_text(s@),
{
    base64_encode(s.as_bytes())
}

/// The script function `atob`; nothing if the text is base64 in neither alphabet.
/// A text that `btoa` gave comes back as it was.
pub fn atob(s: &str) -> (r: Option<String>)
    ensures
        text_view(r) == atob_text(s@),
        forall|t: Seq<char>| s@ == #[trigger] btoa_text(t) ==> text_view(r) == Some(t),
{
    let decoded: Option<Vec<u8>> = match base64_decode(s) {
        Some(b) => Some(b),
        None => base64_url_decode(s),
    };
    match decoded {
        Some(b) => {
            let t: String = utf8_lossy(&b);
            proof {
                assert forall|u: Seq<char>| s@ == #[trigger] btoa_text(u) implies t@ == u by {
                    lemma_base64_round_trip(vstd::utf8::encode_utf8(u));
                    vstd::utf8::encode_utf8_valid_utf8(u);
                    vstd::utf8::encode_utf8_decode_utf8(u);
                }
            }
            Some(t)
        },
        None => {
            proof {
                assert forall|u: Seq<char>| s@ == #[trigger] btoa_text(u) implies false by {
                    lemma_base64_round_trip(vstd::utf8::encode_utf8(u));
                }
            }
            None
        },
    }
}

/// The script method `TextEncoder.encode`: the UTF-8 bytes of a text.
pub fn text_encode(s: &str) -> (r: Vec<u8>)
    ensures
        r@ == vstd::utf8::encode_utf8(s@),
{
    s.as_bytes_vec()
}

/// The script method `TextDecoder.decode`: the text that bytes encode. Bytes
/// that `text_encode` gave come back as the text that they were made from.
pub fn text_decode(b: &[u8]) -> (r: String)
    ensures
        r@ == lossy_text(b@),
        forall|t: Seq<char>| b@ == #[trigger] vstd::utf8::encode_utf8(t) ==> r@ == t,
{
    let r: String = utf8_lossy(b);
    proof {
        assert forall|t: Seq<char>| b@ == #[trigger] vstd::utf8::encode_utf8(t) implies r@ == t by {
            vstd::utf8::encode_utf8_valid_utf8(t);
            vstd::utf8::encode_utf8_decode_utf8(t);
        }
    }
    r
}

proof fn lemma_alphabets_agree(b: Seq<u8>, c: Seq<u8>)
    requires
        base64_url_text(b) == base64_text(c),
    ensures
        b == c,
{
    let s = base64_url_text(b);
    let t = base64_text(c);
    let n = symbol_count(c.len()) as int;
    assert(s.len() == t.len());
    if n < t.len() {
        assert(t[n] == '=');
        lemma_url_alphabet(b, n);
    }
    assert(symbol_count(b.len()) == symbol_count(c.len()));
    lemma_count_injective(b.len(), c.len());
    assert forall|i: int| 0 <= i < symbol_count(b.len()) implies #[trigger] sextet(b, i) == sextet(
        c,
        i,
    ) by {
        lemma_sextet_range(b, i);
        lemma_sextet_range(c, i);
        assert(s[i] == symbol(sextet(b, i), true));
        assert(t[i] == symbol(sextet(c, i), false));
    }
    lemma_same_bytes(b, c);
}

/// `atob` reads base64 in either alphabet as the same bytes, and nothing else.
pub proof fn lemma_atob(b: Seq<u8>, s: Seq<char>)
    ensures
        atob_text(base64_text(b)) == Some(lossy_text(b)),
        atob_text(base64_url_text(b)) == Some(lossy_text(b)),
        atob_text(s) is Some <==> exists|c: Seq<u8>|
            #![trigger base64_text(c)]
            #![trigger base64_url_text(c)]
            base64_text(c) == s || base64_url_text(c) == s,
{
    lemma_base64_round_trip(b);
    if base64_bytes(base64_url_text(b)) is Some {
        let c = base64_bytes(base64_url_text(b))->0;
        assert(base64_text(c) == base64_url_text(b));
        lemma_alphabets_agree(b, c);
    }
    if atob_text(s) is Some {
        if base64_bytes(s) is Some {
            let c = base64_bytes(s)->0;
            assert(base64_text(c) == s);
        } else {
            let c = base64_url_bytes(s)->0;
            assert(base64_url_text(c) == s);
        }
    }
}

/// A byte that is missing at the end counts as zero: the symbols of the bytes
/// are those of the bytes with a zero behind them, as far as they go.
pub proof fn lemma_missing_bytes(b: Seq<u8>, i: int)
    requires
        0 <= i < symbol_count(b.len()),
    ensures
        base64_text(b)[i] == base64_text(b.push(0))[i],
        base64_url_text(b)[i] == base64_url_text(b.push(0))[i],
{
    let c = b.push(0);
    assert forall|k: int| #[trigger] byte_or_zero(b, k) == byte_or_zero(c, k) by {}
    assert(sextet(b, i) == sextet(c, i));
    assert(i < symbol_count(c.len()));
}

} // verus!
