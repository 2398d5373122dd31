use bugzilla_cli::json::{read_json, show_json, show_json_pretty, Json};
use bugzilla_cli::text::{
    ends_with, parse_digits_u64, parse_u64, split_lines_str, starts_with, str_eq, strip_prefix,
    trim_str, u64_to_decimal,
};

#[test]
fn decimal_texts() {
    assert_eq!(u64_to_decimal(0), "0");
    assert_eq!(u64_to_decimal(42), "42");
    assert_eq!(u64_to_decimal(u64::MAX), "18446744073709551615");
}

#[test]
fn decimal_round_trip() {
    for n in [0u64, 7, 10, 999, 123456789, u64::MAX] {
        assert_eq!(parse_u64(&u64_to_decimal(n)), Some(n));
    }
}

#[test]
fn parse_u64_as_std_does() {
    for text in ["", "+", "+5", "-1", "007", "12a", " 1", "18446744073709551615", "18446744073709551616"] {
        assert_eq!(parse_u64(text), text.parse::<u64>().ok(), "text {text:?}");
    }
}

#[test]
fn digits_only() {
    assert_eq!(parse_digits_u64("123"), Some(123));
    assert_eq!(parse_digits_u64("+123"), None);
    assert_eq!(parse_digits_u64("1.5"), None);
    assert_eq!(parse_digits_u64(""), None);
}

#[test]
fn trimming_as_std_does() {
    for text in ["", "  ", " a b ", "\t\nx\u{3000}", "\u{85}y\u{a0}", "z"] {
        assert_eq!(trim_str(text), text.trim(), "text {text:?}");
    }
}

#[test]
fn pieces_between_line_feeds() {
    for text in ["", "a", "a\n", "a\r\nb", "\n\n", "x\ry\n", "a\nb\r\n"] {
        let ours = split_lines_str(text);
        let theirs: Vec<String> = text.split('\n').map(String::from).collect();
        assert_eq!(ours, theirs, "text {text:?}");
    }
}

#[test]
fn prefixes_and_suffixes() {
    assert!(str_eq("ab", "ab"));
    assert!(!str_eq("ab", "abc"));
    assert_eq!(strip_prefix("export K=1", "export "), Some("K=1"));
    assert_eq!(strip_prefix("K=1", "export "), None);
    assert!(starts_with("abc", ""));
    assert!(ends_with("x/rest", "/rest"));
    assert!(!ends_with("rest", "/rest"));
}

#[test]
fn whitespace_as_std_has_it() {
    for code in 0u32..0x11_0000 {
        if let Some(c) = char::from_u32(code) {
            let text = c.to_string();
            assert_eq!(trim_str(&text).is_empty(), c.is_whitespace(), "char {code:#x}");
        }
    }
}

#[test]
fn json_text_read() {
    let v = read_json(r#" {"b": [1, 2.5, -3], "a": {"c": null, "d": true}, "s": "x\"y"} "#).unwrap();
    assert_eq!(
        v,
        Json::Object(vec![
            (
                "a".to_string(),
                Json::Object(vec![
                    ("c".to_string(), Json::Null),
                    ("d".to_string(), Json::Bool(true)),
                ])
            ),
            (
                "b".to_string(),
                Json::Array(vec![
                    Json::Number("1".into()),
                    Json::Number("2.5".into()),
                    Json::Number("-3".into()),
                ])
            ),
            ("s".to_string(), Json::Str("x\"y".into())),
        ])
    );
    assert_eq!(read_json("[]"), Some(Json::Array(vec![])));
}

#[test]
fn json_text_refused() {
    assert_eq!(read_json(""), None);
    assert_eq!(read_json("{"), None);
    assert_eq!(read_json("[1,]"), None);
    assert_eq!(read_json("nul"), None);
}

#[test]
fn json_lookups() {
    let v = read_json(r#"{"a":1,"s":"t","n":null,"arr":[1]}"#).unwrap();
    assert_eq!(v.get("a").and_then(|x| x.as_u64()), Some(1));
    assert_eq!(v.get("s").and_then(|x| x.as_str()).map(|s| s.as_str()), Some("t"));
    assert!(v.get("missing").is_none());
    assert_eq!(v.get("arr").and_then(|x| x.as_array()).map(|a| a.len()), Some(1));
    assert_eq!(Json::Number("1.0".into()).as_u64(), None);
    assert_eq!(Json::Str("1".into()).as_u64(), None);
    let dup = v.duplicate();
    assert_eq!(dup, v);
}

#[test]
fn json_shown_as_serde_json_shows_it() {
    let texts = [
        r#"{"a":[1,2.5,-3],"b":{"c":null,"d":true,"e":false},"f":"x\"y\\z"}"#,
        r#"["tab\there","nl\nx","ctl\u0001\u001f","bs\u0008ff\u000c","cr\r","é ✓"]"#,
        "[]",
        "{}",
    ];
    for text in texts {
        let v: serde_json::Value = serde_json::from_str(text).unwrap();
        let ours = read_json(text).unwrap();
        assert_eq!(show_json(&ours), v.to_string());
        assert_eq!(show_json_pretty(&ours), serde_json::to_string_pretty(&v).unwrap());
    }
    assert_eq!(show_json(&Json::Str("q".into())), "\"q\"");
    assert_eq!(show_json_pretty(&Json::Array(vec![Json::Null])), "[\n  null\n]");
}
