use simple_bitcoin::json::access::{get, get_items, get_number, get_text};
use simple_bitcoin::json::parser::parse;
use simple_bitcoin::json::value::{Json, Member};
use simple_bitcoin::json::writer::to_text;

fn written(j: &Json) -> String {
    String::from_utf8(to_text(j)).unwrap()
}

fn rewritten(text: &str) -> Option<String> {
    parse(text.as_bytes()).map(|j| written(&j))
}

#[test]
fn values_are_written_compactly() {
    assert_eq!(written(&Json::Null), "null");
    assert_eq!(written(&Json::Bool(true)), "true");
    assert_eq!(written(&Json::Bool(false)), "false");
    assert_eq!(written(&Json::Number(0)), "0");
    assert_eq!(written(&Json::Number(10)), "10");
    assert_eq!(written(&Json::Number(u64::MAX)), "18446744073709551615");
    assert_eq!(written(&Json::Text(String::new())), "\"\"");
    assert_eq!(written(&Json::Array(vec![])), "[]");
    assert_eq!(written(&Json::Object(vec![])), "{}");
    let value = Json::Object(vec![
        Member { name: "b".to_string(), value: Json::Array(vec![Json::Number(1), Json::Null]) },
        Member { name: "a".to_string(), value: Json::Object(vec![]) },
        Member { name: "b".to_string(), value: Json::Bool(false) },
    ]);
    assert_eq!(written(&value), r#"{"b":[1,null],"a":{},"b":false}"#);
}

#[test]
fn strings_are_escaped_as_serde_json_escapes_them() {
    let text = "q\" b\\ s/ \u{8}\u{c}\n\r\t \u{0}\u{1f}\u{7f} é 日本 \u{1F600}";
    let ours = written(&Json::Text(text.to_string()));
    assert_eq!(ours, serde_json::to_string(text).unwrap());
    assert_eq!(
        ours,
        "\"q\\\" b\\\\ s/ \\b\\f\\n\\r\\t \\u0000\\u001f\u{7f} é 日本 \u{1F600}\""
    );
    match parse(ours.as_bytes()) {
        Some(Json::Text(back)) => assert_eq!(back, text),
        other => panic!("{:?}", other),
    }
}

#[test]
fn every_escape_is_read() {
    let read = |text: &str| match parse(text.as_bytes()) {
        Some(Json::Text(t)) => Some(t),
        _ => None,
    };
    assert_eq!(read(r#""\"\\\/\b\f\n\r\t""#), Some("\"\\/\u{8}\u{c}\n\r\t".to_string()));
    assert_eq!(
        read(r#""\u0041\u00e9\u00E9\u65e5\ud83d\ude00""#),
        Some("Aéé日\u{1F600}".to_string())
    );
    assert_eq!(read(r#""\u0000""#), Some("\u{0}".to_string()));
    assert_eq!(read(r#""\uffff""#), Some("\u{ffff}".to_string()));
    assert_eq!(read(r#""\u07ff\u0800\u007f\u0080""#), Some("\u{7ff}\u{800}\u{7f}\u{80}".to_string()));
    assert_eq!(read(r#""\udbff\udfff""#), Some("\u{10ffff}".to_string()));
    assert_eq!(read(r#""\uD800\uDC00""#), Some("\u{10000}".to_string()));
    for text in [
        r#""\x""#,
        r#""\u12""#,
        r#""\u12g4""#,
        r#""\ud83d""#,
        r#""\ud83dx""#,
        r#""\ud83d\u0041""#,
        r#""\ud83d\ud83d""#,
        r#""\ud83d\n""#,
        r#""\ude00""#,
        r#""\"#,
        r#"""#,
        r#""abc"#,
        "\"a\nb\"",
        "\"a\u{1}b\"",
    ] {
        assert_eq!(read(text), None, "{}", text);
    }
    // Bytes that are no UTF-8 between the quotes.
    assert!(parse(&[b'"', 0xff, b'"']).is_none());
    assert!(parse(&[b'"', 0xc3, b'"']).is_none());
}

#[test]
fn space_between_tokens_is_passed_over() {
    assert_eq!(
        rewritten(" \t\r\n{ \"a\" :\n[ 1 , 2 ,\t{ } , [ ] ] , \"b\" : null }\n"),
        Some(r#"{"a":[1,2,{},[]],"b":null}"#.to_string())
    );
    assert_eq!(rewritten("  7  "), Some("7".to_string()));
    assert_eq!(rewritten("[[[[]]]]"), Some("[[[[]]]]".to_string()));
    assert_eq!(rewritten("true"), Some("true".to_string()));
    assert_eq!(rewritten("18446744073709551615"), Some("18446744073709551615".to_string()));
}

#[test]
fn what_is_no_json_is_not_read() {
    for text in [
        "",
        " ",
        "nul",
        "nulll",
        "True",
        "tru",
        "fals",
        "01",
        "-1",
        "1.5",
        "1e3",
        "+1",
        "18446744073709551616",
        "99999999999999999999999999",
        "[",
        "]",
        "[1",
        "[1,",
        "[1,]",
        "[,1]",
        "[1 2]",
        "{",
        "}",
        "{\"a\"}",
        "{\"a\":}",
        "{\"a\":1,}",
        "{,\"a\":1}",
        "{a:1}",
        "{1:1}",
        "{\"a\":1 \"b\":2}",
        "{\"a\" 1}",
        "1 2",
        "[] []",
        "\u{b}1",
        "'a'",
    ] {
        assert!(parse(text.as_bytes()).is_none(), "{}", text);
    }
}

#[test]
fn members_are_found_by_name() {
    let j = parse(br#"{"a":1,"b":"x","c":[2,3],"a":4,"d":{"a":5}}"#).unwrap();
    assert_eq!(get_number(&j, "a"), Some(1));
    assert_eq!(get_number(&j, "b"), None);
    assert_eq!(get_number(&j, "z"), None);
    assert_eq!(get_text(&j, "b"), Some(&"x".to_string()));
    assert_eq!(get_text(&j, "a"), None);
    assert_eq!(get_items(&j, "c").map(|items| items.len()), Some(2));
    assert!(get_items(&j, "a").is_none());
    assert_eq!(get(&j, "d").and_then(|d| get_number(d, "a")), Some(5));
    assert!(get(&j, "").is_none());
    assert!(get(&Json::Array(vec![]), "a").is_none());
}

#[test]
fn what_is_written_is_read_back() {
    let value = Json::Array(vec![
        Json::Null,
        Json::Bool(true),
        Json::Number(42),
        Json::Text("a \"b\" \\ \u{1}".to_string()),
        Json::Object(vec![
            Member { name: "k\n".to_string(), value: Json::Array(vec![Json::Number(0)]) },
            Member { name: String::new(), value: Json::Object(vec![]) },
        ]),
    ]);
    let text = written(&value);
    assert_eq!(rewritten(&text), Some(text.clone()));
    let theirs: serde_json::Value = serde_json::from_str(&text).unwrap();
    assert_eq!(theirs[2].as_u64(), Some(42));
    assert_eq!(theirs[3].as_str(), Some("a \"b\" \\ \u{1}"));
    assert_eq!(theirs[4]["k\n"][0].as_u64(), Some(0));
}
