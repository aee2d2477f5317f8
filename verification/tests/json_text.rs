use bili_sync::time::{check_instant, MAX_UTC_SECS, MIN_UTC_SECS};
use bili_sync::json::{as_i64, as_str, is_null, member, Json};
use bili_sync::text::{contains, i64_text, parse_i64, starts_with, trim, u64_text, usize_text_pad2};

fn s(x: &str) -> Json {
    Json::Str(x.to_string())
}

fn obj(entries: Vec<(&str, Json)>) -> Json {
    Json::Object(entries.into_iter().map(|(k, v)| (k.to_string(), v)).collect())
}

fn text(v: Vec<char>) -> String {
    v.into_iter().collect()
}

#[test]
fn member_reads_nested_values_and_missing_ones_as_null() {
    let v = obj(vec![("a", obj(vec![("b", Json::Int(3)), ("c", s("x"))]))]);
    let a = member(Some(&v), "a");
    assert_eq!(as_i64(member(a, "b")), Some(3));
    assert_eq!(as_str(member(a, "c")), Some("x"));
    assert!(member(a, "missing").is_none());
    assert!(is_null(member(member(a, "missing"), "deeper")));
    assert!(member(member(Some(&v), "a"), "b").is_some());
    assert!(member(Some(&s("not an object")), "a").is_none());
}

#[test]
fn as_i64_reads_only_small_integers() {
    assert_eq!(as_i64(Some(&Json::Int(-7))), Some(-7));
    assert_eq!(as_i64(Some(&Json::UInt(u64::MAX))), None);
    assert_eq!(as_i64(Some(&Json::Float("1.5".to_string()))), None);
    assert_eq!(as_i64(Some(&s("12"))), None);
}

#[test]
fn member_takes_the_first_entry_with_the_key() {
    let v = obj(vec![("k", Json::Int(1)), ("k", Json::Int(2))]);
    assert_eq!(as_i64(member(Some(&v), "k")), Some(1));
}

#[test]
fn deep_copy_is_equal() {
    let v = obj(vec![
        ("list", Json::Array(vec![Json::Null, Json::Bool(true), Json::UInt(u64::MAX)])),
        ("f", Json::Float("2.5e3".to_string())),
    ]);
    assert_eq!(v.deep_copy(), v);
}

#[test]
fn parse_i64_follows_integer_syntax() {
    assert_eq!(parse_i64("123"), Some(123));
    assert_eq!(parse_i64("-42"), Some(-42));
    assert_eq!(parse_i64("+7"), Some(7));
    assert_eq!(parse_i64("007"), Some(7));
    assert_eq!(parse_i64(""), None);
    assert_eq!(parse_i64("-"), None);
    assert_eq!(parse_i64("+"), None);
    assert_eq!(parse_i64("12a"), None);
    assert_eq!(parse_i64(" 1"), None);
    assert_eq!(parse_i64("1_000"), None);
    assert_eq!(parse_i64("9223372036854775807"), Some(i64::MAX));
    assert_eq!(parse_i64("9223372036854775808"), None);
    assert_eq!(parse_i64("-9223372036854775808"), Some(i64::MIN));
    assert_eq!(parse_i64("-9223372036854775809"), None);
    assert_eq!(parse_i64("99999999999999999999999"), None);
}

#[test]
fn parse_i64_agrees_with_std() {
    for t in ["0", "-0", "+0", "1700000000", "-1", "18446744073709551615", "--1", "+-1", "1.0"] {
        assert_eq!(parse_i64(t), t.parse::<i64>().ok(), "{t}");
    }
}

#[test]
fn integer_text_matches_display() {
    for i in [0i64, 5, -5, 10, 1700000000, i64::MAX, i64::MIN] {
        assert_eq!(text(i64_text(i)), i.to_string());
    }
    assert_eq!(text(u64_text(u64::MAX)), u64::MAX.to_string());
    assert_eq!(text(usize_text_pad2(1)), "01");
    assert_eq!(text(usize_text_pad2(10)), "10");
    assert_eq!(text(usize_text_pad2(123)), "123");
}

#[test]
fn trim_removes_unicode_white_space() {
    assert_eq!(text(trim("  a b \n")), "a b");
    assert_eq!(text(trim("\u{3000}标题\u{3000}")), "标题");
    assert_eq!(text(trim(" \t\r\n ")), "");
    assert_eq!(text(trim("x")), "x");
    assert_eq!(text(trim("\u{00A0}\u{85}a\u{2009}\u{1680}")), "a");
    assert_eq!(text(trim("\u{200B}a\u{FEFF}")), "\u{200B}a\u{FEFF}");
}

#[test]
fn starts_with_and_contains() {
    assert!(starts_with("pics/01.jpg", "pics/"));
    assert!(!starts_with("pic", "pics/"));
    assert!(contains("a/../b", ".."));
    assert!(!contains("a/./b", ".."));
    assert!(contains("ab", ""));
}

#[test]
fn representable_instants_end_where_chrono_ends() {
    assert_eq!(check_instant(Some(MIN_UTC_SECS)), Some(MIN_UTC_SECS));
    assert_eq!(check_instant(Some(MIN_UTC_SECS - 1)), None);
    assert_eq!(check_instant(Some(MAX_UTC_SECS)), Some(MAX_UTC_SECS));
    assert_eq!(check_instant(Some(MAX_UTC_SECS + 1)), None);
    assert_eq!(check_instant(Some(i64::MIN)), None);
    assert_eq!(check_instant(None), None);
}

