use github_stats::json::Json;
use github_stats::text::{i64_to_string, segments, str_eq, str_eq_ignore_case, u64_to_string};

#[test]
fn exact_equality_sees_every_byte() {
    assert!(str_eq("abc", "abc"));
    assert!(!str_eq("abc", "abd"));
    assert!(!str_eq("abc", "ab"));
    assert!(str_eq("héllo", "héllo"));
    assert!(!str_eq("héllo", "hello"));
}

#[test]
fn case_insensitive_equality_folds_ascii() {
    assert!(str_eq_ignore_case("HeLLo", "hello"));
    assert!(str_eq_ignore_case("HTML", "html"));
    assert!(!str_eq_ignore_case("rust", "rusty"));
}

#[test]
fn decimal_rendering() {
    assert_eq!(u64_to_string(0), "0");
    assert_eq!(u64_to_string(90210), "90210");
    assert_eq!(u64_to_string(u64::MAX), "18446744073709551615");
    assert_eq!(i64_to_string(-42), "-42");
    assert_eq!(i64_to_string(7), "7");
    assert_eq!(i64_to_string(i64::MIN), "-9223372036854775808");
}

#[test]
fn segments_split_on_every_slash() {
    let segs = segments("/repos/owner/repo/stats/contributors");
    assert_eq!(segs, vec!["", "repos", "owner", "repo", "stats", "contributors"]);
    assert_eq!(segments("plain"), vec!["plain"]);
    assert_eq!(segments("a//b"), vec!["a", "", "b"]);
}

#[test]
fn json_accessors_read_their_own_shape() {
    let v = Json::Obj(vec![
        (String::from("n"), Json::UInt(3)),
        (String::from("s"), Json::Str(String::from("x"))),
        (String::from("neg"), Json::Int(-9)),
    ]);
    assert_eq!(v.get("n").and_then(|j| j.as_u64()), Some(3));
    assert_eq!(v.get("neg").and_then(|j| j.as_u64()), None);
    assert_eq!(v.get("neg").and_then(|j| j.as_i64()), Some(-9));
    assert_eq!(v.get("s").and_then(|j| j.as_str()), Some("x"));
    assert_eq!(v.get("missing").map(|_| ()), None);
    assert!(Json::Null.is_null());
}
