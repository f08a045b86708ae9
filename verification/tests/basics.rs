use engramdb::binary64::Binary64;
use engramdb::json::{parse_json, Json};
use engramdb::path::FilePath;
use engramdb::preview::{tool_result_text, tool_target};
use engramdb::text::{blank, decimal_text, same_text, trimmed};
use engramdb::time::Timestamp;

#[test]
fn paths_compare_by_component() {
    let p = |s: &str| FilePath::parse(s);
    assert!(p("/a//b/./c/").same(&p("/a/b/c")));
    assert!(!p("a/b").same(&p("/a/b")));
    assert!(!p("./a").same(&p("a")));
    assert!(p("/a/b/c").starts_with(&p("/a/b")));
    assert!(!p("/a/bc").starts_with(&p("/a/b")));
    assert!(p("/a/b").is_less(&p("/a/b/c")));
    assert!(p("/a/b").is_less(&p("/a.b")));
    assert!(!p("/a").is_less(&p("/a")));
    assert!(p("/a/../b").file_name().as_deref() == Some("b"));
    assert!(p("/a/..").file_name().is_none());
}

#[test]
fn texts_are_trimmed_of_all_white_space() {
    assert_eq!(trimmed("\u{2003} a b\t\n"), "a b");
    assert!(blank(" \u{a0}\n"));
    assert!(!blank(" x "));
    assert!(same_text("é", "é"));
    assert!(!same_text("e\u{301}", "é"));
}

#[test]
fn numbers_are_written_in_decimal() {
    assert_eq!(decimal_text(0), "0");
    assert_eq!(decimal_text(9_876_543_210), "9876543210");
    assert_eq!(decimal_text(u64::MAX), u64::MAX.to_string());
}

#[test]
fn json_is_parsed_and_searched() {
    let j = parse_json(r#"{"a":{"b":"text","c":true},"n":1.5,"l":[1,"x"]}"#).unwrap();
    let a = j.get("a").unwrap();
    assert_eq!(a.get("b").unwrap().as_str(), Some("text"));
    assert_eq!(a.get("c").unwrap().as_bool(), Some(true));
    assert!(j.get("z").is_none());
    assert!(matches!(j.get("l"), Some(Json::Array(v)) if v.len() == 2));
    assert!(parse_json("{").is_none());
    assert!(parse_json("").is_none());
}

#[test]
fn a_tool_call_is_told_by_its_target() {
    let input = parse_json(r#"{"command":"cargo build","file_path":"/a.rs"}"#).unwrap();
    assert_eq!(tool_target(&input).as_deref(), Some("/a.rs"));
    let input = parse_json(r#"{"command":"cargo build"}"#).unwrap();
    assert_eq!(tool_target(&input).as_deref(), Some("cargo build"));
    assert_eq!(tool_target(&parse_json("{}").unwrap()), None);
}

#[test]
fn a_tool_result_is_text_or_blocks_of_text() {
    let block = parse_json(r#"{"content":"plain"}"#).unwrap();
    assert_eq!(tool_result_text(&block).as_deref(), Some("plain"));
    let block = parse_json(r#"{"content":[{"type":"text","text":"one"}]}"#).unwrap();
    assert_eq!(tool_result_text(&block).as_deref(), Some("one"));
    assert_eq!(tool_result_text(&parse_json("{}").unwrap()), None);
}

#[test]
fn instants_are_ordered_by_seconds_and_nanoseconds() {
    let t = |secs: i64, nanos: u32| Timestamp { secs, nanos };
    assert!(t(1, 999).is_before(&t(2, 0)));
    assert!(t(2, 0).is_before(&t(2, 1)));
    assert!(!t(2, 1).is_before(&t(2, 1)));
    assert!(t(-1, 0).is_before(&t(0, 0)));
    assert_eq!(t(100, 5).earlier(40), t(60, 5));
}

#[test]
fn floating_point_numbers_are_judged_by_their_bits() {
    let f = |x: f64| Binary64 { bits: x.to_bits() };
    for x in [0.0, -0.0, 0.5, 1.0, f64::MIN_POSITIVE] {
        assert!(f(x).is_unit(), "{x}");
    }
    for x in [1.0 + f64::EPSILON, -f64::MIN_POSITIVE, f64::NAN, f64::INFINITY] {
        assert!(!f(x).is_unit(), "{x}");
    }
    assert!(f(f64::NAN).nan() && f(-f64::NAN).nan());
    assert!(!f(f64::INFINITY).nan());
    assert!(f(-0.5).negative());
    assert!(!f(-0.0).negative());
    for i in 0..4000u32 {
        let x = 0.998 + f64::from(i) * 1e-6;
        assert_eq!(f(x).is_near_one(), !((x - 1.0).abs() > 0.001), "{x}");
    }
}
