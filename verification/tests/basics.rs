use ls_server::calendar::civil;
use ls_server::config::config_string;
use ls_server::json::{self, Json};
use ls_server::jsonrpc::{incoming, Incoming, RequestId, Response, ResponseError};
use ls_server::numerals::{numeral, numeral_int, padded_numeral, parse_signed};
use ls_server::order::{is_before, sort};
use ls_server::params;
use ls_server::paths::{ancestor, join_path, normalize, parent, split};
use ls_server::strmap::StrMap;
use ls_server::text::{join, trim};

fn parse(text: &str) -> Json {
    json::decode(text.as_bytes()).unwrap()
}

#[test]
fn a_printed_number_is_read_back() {
    for n in [0, 7, -7, 10, 1234567890, i64::MAX, i64::MIN] {
        assert_eq!(numeral_int(n), n.to_string());
        assert_eq!(parse_signed(&numeral_int(n)), Some(n));
    }
    assert_eq!(numeral(u64::MAX), u64::MAX.to_string());
    assert_eq!(padded_numeral(7, 3), "007");
    assert_eq!(padded_numeral(1234, 3), "1234");
    assert_eq!(parse_signed("9223372036854775808"), None);
    assert_eq!(parse_signed("1x"), None);
    assert_eq!(parse_signed(""), None);
}

#[test]
fn days_since_1970_are_dates() {
    assert_eq!(civil(0), (1970, 1, 1));
    assert_eq!(civil(58), (1970, 2, 28));
    assert_eq!(civil(59), (1970, 3, 1));
    assert_eq!(civil(11_016), (2000, 2, 29));
    assert_eq!(civil(20_635), (2026, 7, 1));
}

#[test]
fn a_path_in_normal_form_stays_as_it_is() {
    for (path, normal) in [
        ("/a/./b/../c", "/a/c"),
        ("/..", "/"),
        ("//a//", "/a"),
        ("/", "/"),
    ] {
        assert_eq!(normalize(path), normal);
        assert_eq!(normalize(normal), normal);
    }
    assert_eq!(normalize("../a/.."), "..");
}

#[test]
fn paths_are_joined_and_taken_apart() {
    assert_eq!(join_path("/a", "b/c"), "/a/b/c");
    assert_eq!(join_path("/a/", "b"), "/a/b");
    assert_eq!(join_path("/a", "/b"), "/b");
    assert_eq!(parent("/a/b").as_deref(), Some("/a"));
    assert_eq!(parent("/"), None);
    assert_eq!(ancestor("/a/b/c", 2).as_deref(), Some("/a"));
    assert_eq!(ancestor("/a", 3), None);
    assert_eq!(split("a::b", ':'), vec!["a", "", "b"]);
}

#[test]
fn texts_are_ordered_by_their_characters() {
    assert!(is_before("a", "b"));
    assert!(is_before("a", "ab"));
    assert!(is_before("z", "é"));
    assert!(!is_before("a", "a"));
    let list: Vec<String> = ["b", "", "ä", "a"].iter().map(|s| s.to_string()).collect();
    assert_eq!(sort(&list), vec!["", "a", "b", "ä"]);
}

#[test]
fn a_map_keeps_the_last_value_of_each_key() {
    let mut map: StrMap<u32> = StrMap::new();
    map.insert("b".to_string(), 1);
    map.insert("a".to_string(), 2);
    map.insert("b".to_string(), 3);
    assert_eq!(map.get("b"), Some(&3));
    assert!(map.contains("a"));
    assert_eq!(map.sorted_keys(), vec!["a", "b"]);
    assert_eq!(map.remove("b"), Some(3));
    assert_eq!(map.remove("b"), None);
    assert_eq!(map.get("b"), None);
    assert_eq!(map.get("a"), Some(&2));
}

#[test]
fn whitespace_of_unicode_is_trimmed() {
    assert_eq!(trim("\u{2003} a b\t\n"), "a b");
    let list: Vec<String> = ["a", "b"].iter().map(|s| s.to_string()).collect();
    assert_eq!(join(&list, ", "), "a, b");
    assert_eq!(join(&[], ", "), "");
}

#[test]
fn a_setting_is_a_string_of_the_configuration() {
    let config = r#"{ "javaHome": "/jdk", "scalafmt": 3 }"#;
    assert_eq!(config_string(Some(config), "javaHome").as_deref(), Some("/jdk"));
    assert_eq!(config_string(Some(config), "scalafmt"), None);
    assert_eq!(config_string(Some(config), "missing"), None);
    assert_eq!(config_string(Some("[]"), "javaHome"), None);
    assert_eq!(config_string(Some("{"), "javaHome"), None);
    assert_eq!(config_string(None, "javaHome"), None);
}

#[test]
fn a_response_of_the_server_is_no_request() {
    let success = Response::success(RequestId::Number(1), Json::Null).to_json();
    assert!(matches!(incoming(&success), Ok(Incoming::Response(_))));
    let failure = Response::failure(
        RequestId::String("s".to_string()),
        ResponseError::new(-1, "m"),
    )
    .to_json();
    assert!(matches!(incoming(&failure), Ok(Incoming::Response(_))));
}

#[test]
fn numbers_of_a_position_fit_their_type_or_there_is_none() {
    assert!(params::position(&parse(r#"{ "line": 4294967295, "character": 0 }"#)).is_some());
    assert!(params::position(&parse(r#"{ "line": 4294967296, "character": 0 }"#)).is_none());
    assert!(params::position(&parse(r#"{ "line": -1, "character": 0 }"#)).is_none());
    assert!(params::position(&parse(r#"{ "line": 1.5, "character": 0 }"#)).is_none());
    assert!(params::position(&parse(r#"{ "line": 1 }"#)).is_none());
}

#[test]
fn the_report_is_structured_only_where_that_is_asked_for() {
    for (arguments, expected) in [
        (r#"[{ "json": true }]"#, true),
        (r#"[{ "json": false }]"#, false),
        (r#"[{}]"#, false),
        ("[]", false),
    ] {
        let params = parse(&format!(r#"{{ "arguments": {arguments} }}"#));
        assert_eq!(params::doctor_json_requested(&params), expected, "{arguments}");
    }
}
