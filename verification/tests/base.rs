use mnemos::double::Double;
use mnemos::env::{is_truthy, Env};
use mnemos::error::MnemosError;
use mnemos::json::{list, read_json, read_json_bytes, Json, JsonNumber, ObjectBuilder};
use mnemos::ranking::rank_by;
use mnemos::text::{
    contains, find_char, find_span, from_chars, is_blank, is_float_text, join, len_in_bytes,
    parse_i64, parse_u16, parse_u64, parse_usize, rfind_char, same, show_u64, split,
    starts_with, strip_prefix, strip_trailing, to_chars, to_lower, trim,
};

fn double(x: f64) -> Double {
    Double { bits: x.to_bits() }
}

fn value(d: Double) -> f64 {
    f64::from_bits(d.bits)
}

#[test]
fn texts_are_trimmed_of_white_space() {
    assert_eq!(trim("\u{a0} x y\u{2003}\n"), "x y");
    assert_eq!(trim(""), "");
    assert!(is_blank(" \u{85}\t"));
    assert!(!is_blank("\u{200b}"));
}

#[test]
fn texts_are_cut_and_joined() {
    assert_eq!(split("a,,b", ','), vec!["a", "", "b"]);
    assert_eq!(split("", ','), vec![""]);
    assert_eq!(join(&vec!["a".to_string(), "b".to_string()], ", "), "a, b");
    assert_eq!(find_char("héllo", 'l'), Some(2));
    assert_eq!(rfind_char("héllo", 'l'), Some(3));
    assert_eq!(find_char("x", 'l'), None);
    assert_eq!(find_span("a[b]c]", '[', ']'), Some((1, 5)));
    assert_eq!(strip_prefix("--limit=3", "--limit="), Some("3"));
    assert_eq!(strip_prefix("x", "xy"), None);
    assert_eq!(strip_trailing("http://x///", '/'), "http://x");
    assert!(starts_with("abc", "ab"));
    assert!(contains("abc", "bc"));
    assert!(!contains("abc", "ca"));
    assert!(same("a", "a"));
    assert_eq!(len_in_bytes("aé€😀"), 10);
    assert_eq!(to_lower("ÀB"), "Àb");
    assert_eq!(from_chars(&to_chars("héllo"), 1, 3), "él");
}

#[test]
fn whole_numbers_read_as_they_are_shown() {
    assert_eq!(parse_u64("+7"), Some(7));
    assert_eq!(parse_u64("18446744073709551615"), Some(u64::MAX));
    assert_eq!(parse_u64("18446744073709551616"), None);
    assert_eq!(parse_u64("-0"), None);
    assert_eq!(parse_u64(""), None);
    assert_eq!(parse_u64("+"), None);
    assert_eq!(parse_u16("65536"), None);
    assert_eq!(parse_usize("12"), Some(12));
    assert_eq!(parse_i64("-9223372036854775808"), Some(i64::MIN));
    assert_eq!(parse_i64("9223372036854775808"), None);
    for n in [0, 7, 10, 1234567890, u64::MAX] {
        assert_eq!(parse_u64(&show_u64(n)), Some(n));
    }
}

#[test]
fn texts_of_doubles_are_those_that_parse() {
    for text in [
        "1", "-1.5", "+.5", "5.", "1e3", "1E-3", "inf", "-Infinity", "NaN", ".", "", "e5", "1e",
        "1.2.3", " 1", "0x1", "infin", "+", "1_0", "-nan", "1e+5", ".e1",
    ] {
        assert_eq!(is_float_text(text), text.parse::<f64>().is_ok(), "{text:?}");
    }
}

#[test]
fn doubles_compare_like_doubles() {
    let all = [
        f64::NEG_INFINITY, -2.5, -1.0, -1e-310, -0.0, 0.0, 1e-310, 0.5, 1.0, 1e300, f64::INFINITY,
        f64::NAN,
    ];
    for a in all {
        assert_eq!(double(a).is_nan(), a.is_nan());
        assert_eq!(double(a).is_finite(), a.is_finite());
        assert_eq!(double(a).to_u64(), a as u64);
        assert_eq!(double(a).to_i64(), a as i64);
        assert_eq!(double(a).abs().bits, a.abs().to_bits());
        for b in all {
            assert_eq!(double(a).less(double(b)), a < b);
            assert_eq!(double(a).at_most(double(b)), a <= b);
            assert_eq!(double(a).equals(double(b)), a == b);
        }
    }
    for a in [0.99, 1.0, 1.5, 255.9, 4503599627370497.5, 9007199254740993.0, 1e19, -3.7, -1e19] {
        assert_eq!(double(a).to_u64(), a as u64);
        assert_eq!(double(a).to_i64(), a as i64);
    }
    assert_eq!(value(double(3.0).clamp(double(0.0), double(1.0))), 1.0);
    assert_eq!(value(double(-3.0).clamp(double(0.0), double(1.0))), 0.0);
    assert_eq!(value(double(0.3).clamp(double(0.0), double(1.0))), 0.3);
}

#[test]
fn json_is_read_as_it_is_written() {
    let v = read_json(r#"{"a": [1, -2, 0.5, "x", true, null], "b": 1, "b": 2}"#).expect("valid");
    let items = v.get("a").and_then(|v| v.as_array()).expect("a list");
    assert_eq!(items[0].as_u64(), Some(1));
    assert_eq!(items[1].as_i64(), Some(-2));
    assert_eq!(items[1].as_u64(), None);
    assert_eq!(items[2].as_number(), Some(JsonNumber::Float(double(0.5))));
    assert_eq!(items[3].as_text(), Some("x"));
    assert_eq!(items[4].as_bool(), Some(true));
    assert!(matches!(items[5], Json::Null));
    assert_eq!(v.get("b").and_then(|v| v.as_u64()), Some(2));
    assert!(v.get("c").is_none());
    assert!(read_json("{").is_err());
    assert!(read_json_bytes(b"[1]").is_ok());
    assert!(read_json_bytes(&[0xff]).is_err());
}

#[test]
fn objects_are_built_in_order() {
    let v = ObjectBuilder::new()
        .with("a", Json::number(1))
        .with("b", list(vec![Json::text("x")]))
        .done();
    let copy = v.copy();
    assert_eq!(copy.get("a").and_then(|v| v.as_u64()), Some(1));
    assert_eq!(copy.as_entries().map(|e| e.len()), Some(2));
}

#[test]
fn ranking_is_stable() {
    assert_eq!(rank_by(vec!['a', 'b', 'c', 'd'], &vec![1, 3, 1, 3]), vec!['b', 'd', 'a', 'c']);
}

#[test]
fn the_last_setting_of_a_variable_counts() {
    let env = Env {
        vars: vec![
            ("A".to_string(), "1".to_string()),
            ("A".to_string(), " 2 ".to_string()),
            ("B".to_string(), String::new()),
        ],
    };
    assert_eq!(env.get("A"), Some(" 2 "));
    assert_eq!(env.get_trimmed("A"), Some("2".to_string()));
    assert_eq!(env.get_trimmed("B"), None);
    assert_eq!(env.get_or("C", "c"), "c");
    assert_eq!(env.get_non_empty_or("B", "b"), "b");
    assert!(env.parse_bool_env("C", true));
    assert!(is_truthy("YES"));
    assert!(!is_truthy("2"));
}

#[test]
fn errors_show_their_area() {
    assert_eq!(MnemosError::Storage("x".to_string()).message(), "storage: x");
    assert_eq!(MnemosError::Llm("x".to_string()).message(), "llm: x");
    assert_eq!(MnemosError::Embedding("x".to_string()).message(), "embedding: x");
    assert_eq!(MnemosError::NotFound("x".to_string()).message(), "not found: x");
    assert_eq!(MnemosError::Config("x".to_string()).message(), "config: x");
    assert_eq!(MnemosError::Serde("x".to_string()).message(), "serialization: x");
    assert_eq!(MnemosError::Http("x".to_string()).message(), "http: x");
    assert_eq!(MnemosError::Internal("x".to_string()).message(), "internal: x");
}
