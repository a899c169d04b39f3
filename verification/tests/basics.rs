use oxibrowser::codec::{atob, btoa, text_decode, text_encode};
use oxibrowser::js::double::{finite, nan, to_i32, to_u32, to_u64, to_u8};
use oxibrowser::json::{Json, Number, ObjectBuilder};
use oxibrowser::strmap::StringMap;
use oxibrowser::text;

#[test]
fn base64_round_trip() {
    for t in ["", "f", "fo", "foo", "foob", "한국어 ☃"] {
        assert_eq!(atob(&btoa(t)), Some(t.to_string()));
    }
    assert_eq!(btoa("foob"), "Zm9vYg==");
    assert_eq!(btoa("~~~?"), "fn5+Pw==");
}

#[test]
fn base64_in_either_alphabet_is_decoded() {
    assert_eq!(atob("fn5-Pw"), Some("~~~?".to_string()));
    assert_eq!(atob("Zm9vYg"), Some("foob".to_string()));
    assert_eq!(atob("Zm9vYg="), None);
    assert_eq!(atob("Zm9vYh=="), None);
    assert_eq!(atob("no base64!"), None);
    assert_eq!(atob("/w=="), Some("\u{fffd}".to_string()));
}

#[test]
fn utf8_round_trip() {
    assert_eq!(text_encode("é"), vec![0xc3, 0xa9]);
    assert_eq!(text_decode(&text_encode("aé☃")), "aé☃");
    assert_eq!(text_decode(&[0x61, 0xff]), "a\u{fffd}");
}

#[test]
fn doubles_become_integers_as_by_a_cast() {
    let values = [
        0.0,
        -0.0,
        0.9,
        1.0,
        1.5,
        -1.5,
        255.9,
        256.0,
        4294967295.5,
        4294967296.0,
        -2147483649.0,
        2147483647.7,
        9007199254740993.0,
        1.8446744073709552e19,
        1.8446744073709550e19,
        1e300,
        -1e300,
        5e-324,
        f64::INFINITY,
        f64::NEG_INFINITY,
        f64::NAN,
    ];
    for v in values {
        let bits = v.to_bits();
        assert_eq!(to_u64(bits), v as u64);
        assert_eq!(to_u32(bits), v as u32);
        assert_eq!(to_u8(bits), v as u8);
        assert_eq!(to_i32(bits), v as i32);
        assert_eq!(nan(bits), v.is_nan());
        assert_eq!(finite(bits), v.is_finite());
    }
}

#[test]
fn texts_are_searched_and_cut() {
    assert_eq!(text::find("aßcßc", "ßc"), Some(1));
    assert_eq!(text::find("abc", ""), Some(0));
    assert_eq!(text::find("abc", "x"), None);
    assert!(text::contains("abc", "bc"));
    assert!(text::starts_with("abc", "ab"));
    assert!(text::ends_with("abc", "bc"));
    assert_eq!(text::trim(" \t\u{3000}a b\n"), "a b");
    assert_eq!(text::split("a&&b", "&"), vec!["a", "", "b"]);
    assert_eq!(text::split("", "&"), vec![""]);
    assert_eq!(
        text::join(&["a".to_string(), "b".to_string()], ", "),
        "a, b"
    );
    assert_eq!(text::decimal_text(0), "0");
    assert_eq!(text::decimal_text(1024), "1024");
    assert!(text::same_ignoring_case("Content-Type", "content-TYPE"));
    assert!(!text::same_ignoring_case("É", "é"));
}

#[test]
fn white_space_is_that_of_std() {
    for n in 0..0x3100u32 {
        if let Some(c) = char::from_u32(n) {
            assert_eq!(text::is_white(c), c.is_whitespace());
        }
    }
}

#[test]
fn string_maps_keep_the_order_of_their_keys() {
    let mut m = StringMap::new();
    m.insert("b".to_string(), 1);
    m.insert("a".to_string(), 2);
    m.insert("b".to_string(), 3);
    assert_eq!(m.len(), 2);
    assert_eq!(m.key_at(0).unwrap(), "b");
    assert_eq!(m.get("b"), Some(&3));
    m.remove("b");
    assert_eq!(m.key_at(0).unwrap(), "a");
    assert_eq!(m.get("b"), None);
    m.clear();
    assert_eq!(m.len(), 0);
}

#[test]
fn json_members_are_read_by_kind() {
    let j = ObjectBuilder::new()
        .with_text("t", "x")
        .with("b", Json::Bool(true))
        .with("n", Json::Number(Number::NegInt(-5)))
        .with("big", Json::whole(u64::MAX))
        .with("a", Json::array(vec![Json::Null]))
        .build();
    assert_eq!(j.get_text("t").unwrap(), "x");
    assert_eq!(j.get_text("b"), None);
    assert_eq!(j.get_bool("b"), Some(true));
    assert_eq!(j.get_i64("n"), Some(-5));
    assert_eq!(j.get_i64("big"), None);
    assert_eq!(j.get_array("a").unwrap().len(), 1);
    assert_eq!(j.get("none"), None);
    assert_eq!(j.duplicate(), j);
}
