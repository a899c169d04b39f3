//! `TextEncoder`, `TextDecoder`, `atob`, `btoa` and `crypto.getRandomValues`,
//! as scripts call them.
use vstd::prelude::*;
use vstd::string::*;

use crate::codec;
use crate::js::arg;
use crate::js::arg::{Arg, Kind};
use crate::js::double;

verus! {

/// How many random values one call gives at most.
pub const MAX_RANDOM: u64 = 65536;

/// `atob(encoded)`; nothing where the argument is no base64. What `btoa` made
/// of a text gives the text back.
pub fn atob(args: &[Arg]) -> (r: Option<String>)
    ensures
        codec::text_view(r) == codec::atob_text(arg::shown_at(args@, 0)),
        forall|t: Seq<char>|
            arg::shown_at(args@, 0) == #[trigger] codec::btoa_text(t) ==> codec::text_view(r)
                == Some(t),
{
    codec::atob(arg::shown(args, 0).as_str())
}

/// `btoa(text)`
pub fn btoa(args: &[Arg]) -> (r: String)
    ensures
        r@ == codec::btoa_text(arg::shown_at(args@, 0)),
{
    codec::btoa(arg::shown(args, 0).as_str())
}

/// `new TextEncoder().encode(text)`: the bytes, as the numbers of an array.
pub fn encode(args: &[Arg]) -> (r: Vec<u8>)
    ensures
        r@ == vstd::utf8::encode_utf8(arg::shown_at(args@, 0)),
{
    codec::text_encode(arg::shown(args, 0).as_str())
}

/// The bytes that the elements of an array stand for: a number is cast to a
/// byte, anything else is left out.
pub open spec fn element_bytes(elements: Seq<Option<u64>>) -> Seq<u8>
    decreases elements.len(),
{
    if elements.len() == 0 {
        Seq::empty()
    } else {
        let front = element_bytes(elements.drop_last());
        match elements.last() {
            Some(bits) => front.push(double::clamped(double::truncated(bits), 0, 255) as u8),
            None => front,
        }
    }
}

/// The bytes that the elements of an array stand for. A number is given by the
/// bits of a double.
pub fn bytes_of(elements: &[Option<u64>]) -> (r: Vec<u8>)
    ensures
        r@ == element_bytes(elements@),
{
    let mut r: Vec<u8> = Vec::new();
    let mut i: usize = 0;
    assert(elements@.take(0) =~= Seq::empty());
    while i < elements.len()
        invariant
            i <= elements.len(),
            r@ == element_bytes(elements@.take(i as int)),
        decreases elements.len() - i,
    {
        assert(elements@.take(i + 1).drop_last() =~= elements@.take(i as int));
        match elements[i] {
            Some(bits) => {
                r.push(double::to_u8(bits));
            },
            None => {},
        }
        i = i + 1;
    }
    assert(elements@.take(i as int) =~= elements@);
    r
}

/// `new TextDecoder().decode(array)`: the text that the array's bytes encode;
/// empty where the argument is no array. Bytes that `encode` made of a text
/// give the text back.
pub fn decode(elements: Option<&[Option<u64>]>) -> (r: String)
    ensures
        r@ == match elements {
            Some(v) => codec::lossy_text(element_bytes(v@)),
            None => Seq::empty(),
        },
        elements matches Some(v) ==> forall|t: Seq<char>|
            element_bytes(v@) == #[trigger] vstd::utf8::encode_utf8(t) ==> r@ == t,
{
    match elements {
        Some(v) => codec::text_decode(bytes_of(v).as_slice()),
        None => String::new(),
    }
}

/// The name of the encoding that a decoder was made with.
pub open spec fn encoding_name(args: Seq<Arg>) -> Seq<char> {
    if args.len() > 0 && args[0].kind is Text {
        arg::text_at(args, 0)
    } else {
        "utf-8"@
    }
}

/// The name of the encoding that a decoder was made with.
pub fn decoder_encoding(args: &[Arg]) -> (r: String)
    ensures
        r@ == encoding_name(args@),
        r@ == if args@.len() > 0 && args@[0].kind is Text {
            arg::text_at(args@, 0)
        } else {
            "utf-8"@
        },
{
    if args.len() > 0 {
        match &args[0].kind {
            Kind::Text(t) => t.clone(),
            _ => "utf-8".to_owned(),
        }
    } else {
        "utf-8".to_owned()
    }
}

/// How many elements of an array `crypto.getRandomValues` fills.
pub open spec fn filled(len: u64) -> u64 {
    if len < MAX_RANDOM {
        len
    } else {
        MAX_RANDOM
    }
}

/// The byte at place `i`, when the clock stands at `nanos`.
pub open spec fn clock_byte(nanos: u32, i: u64) -> int {
    (nanos + i) % 256
}

/// How many elements of an array `crypto.getRandomValues` fills.
pub fn random_count(len: u64) -> (r: u64)
    ensures
        r == filled(len),
        r == if len < MAX_RANDOM {
            len
        } else {
            MAX_RANDOM
        },
{
    if len < MAX_RANDOM {
        len
    } else {
        MAX_RANDOM
    }
}

/// The byte that `crypto.getRandomValues` puts at place `i`, when the clock
/// stands at `nanos` nanoseconds of its second.
pub fn random_byte(nanos: u32, i: u64) -> (r: u8)
    ensures
        r == (nanos + i) % 256,
        r == clock_byte(nanos, i),
{
    let a: u64 = (nanos as u64) % 256;
    let b: u64 = i % 256;
    ((a + b) % 256) as u8
}

/// An array of numbers that are bytes stands for those bytes, each at its place.
pub proof fn lemma_element_bytes(elements: Seq<Option<u64>>)
    requires
        forall|i: int|
            0 <= i < elements.len() ==> ((#[trigger] elements[i]) matches Some(bits) && 0
                <= double::truncated(bits) <= 255),
    ensures
        element_bytes(elements).len() == elements.len(),
        forall|i: int|
            0 <= i < elements.len() ==> #[trigger] element_bytes(elements)[i] == double::truncated(
                elements[i]->0,
            ),
    decreases elements.len(),
{
    if elements.len() > 0 {
        let front = elements.drop_last();
        assert forall|i: int| 0 <= i < front.len() implies ((#[trigger] front[i]) matches Some(bits)
            && 0 <= double::truncated(bits) <= 255) by {
            assert(front[i] == elements[i]);
        }
        lemma_element_bytes(front);
        assert(elements[elements.len() - 1] is Some);
        assert forall|i: int| 0 <= i < elements.len() implies #[trigger] element_bytes(elements)[i]
            == double::truncated(elements[i]->0) by {
            if i < front.len() {
                assert(element_bytes(front)[i] == double::truncated(front[i]->0));
            }
        }
    }
}

/// What is no number leaves no byte: the bytes of an array are those of its
/// numbers.
pub proof fn lemma_other_elements(a: Seq<Option<u64>>, b: Seq<Option<u64>>)
    ensures
        element_bytes(a.push(None) + b) == element_bytes(a + b),
    decreases b.len(),
{
    if b.len() == 0 {
        assert(a.push(None) + b =~= a.push(None));
        assert(a + b =~= a);
        assert(a.push(None).drop_last() =~= a);
    } else {
        lemma_other_elements(a, b.drop_last());
        assert((a.push(None) + b).drop_last() =~= a.push(None) + b.drop_last());
        assert((a + b).drop_last() =~= a + b.drop_last());
    }
}

/// A decoder goes by the name of the encoding that it was given, if that is a
/// string, else by `utf-8`.
pub proof fn lemma_encoding_name(a: Arg, rest: Seq<Arg>)
    ensures
        a.kind matches Kind::Text(t) ==> encoding_name(seq![a] + rest) == t@,
        !(a.kind is Text) ==> encoding_name(seq![a] + rest) == seq!['u', 't', 'f', '-', '8'],
        encoding_name(Seq::empty()) == seq!['u', 't', 'f', '-', '8'],
{
    reveal_strlit("utf-8");
    assert("utf-8"@ =~= seq!['u', 't', 'f', '-', '8']);
}

/// An array is filled whole, up to 65536 elements; the first byte is the
/// clock's, and each after it is one more, around 256.
pub proof fn lemma_filled(len: u64, nanos: u32, i: u64)
    ensures
        filled(len) <= len && filled(len) <= 65536,
        filled(len) == len || filled(len) == 65536,
        clock_byte(nanos, 0) == nanos as int % 256,
        i < u64::MAX ==> clock_byte(nanos, (i + 1) as u64) == if clock_byte(nanos, i) == 255 {
            0
        } else {
            clock_byte(nanos, i) + 1
        },
{
}

} // verus!
