use github_stats::cache::Cache;
use github_stats::json::Json;

#[test]
fn round_trip_within_ttl() {
    let mut c = Cache::new(6);
    c.set_at("key", Json::Str(String::from("value")), 100);
    let got = c.get_at("key", 100);
    assert_eq!(got, Some(Json::Str(String::from("value"))));
}

#[test]
fn round_trip_at_ttl_boundary() {
    let mut c = Cache::new(6);
    c.set_at("key", Json::UInt(9), 0);
    // age == ttl exactly is still fresh; one second past it is not
    assert_eq!(c.get_at("key", 6 * 3600), Some(Json::UInt(9)));
    assert_eq!(c.get_at("key", 6 * 3600 + 1), None);
}

#[test]
fn expired_entry_is_absent_and_removed() {
    let mut c = Cache::new(1);
    c.set_at("key", Json::Bool(true), 0);
    assert_eq!(c.get_at("key", 4000), None);
    // idempotent: a second read is also absent, without error
    assert_eq!(c.get_at("key", 4000), None);
    assert_eq!(c.entries.len(), 0);
}

#[test]
fn missing_key_is_absent() {
    let mut c = Cache::new(6);
    assert_eq!(c.get_at("never-set", 10), None);
}

#[test]
fn last_write_wins() {
    let mut c = Cache::new(6);
    c.set_at("k", Json::UInt(1), 10);
    c.set_at("k", Json::UInt(2), 11);
    assert_eq!(c.get_at("k", 12), Some(Json::UInt(2)));
    assert_eq!(c.entries.len(), 1);
}

#[test]
fn distinct_keys_do_not_interact() {
    let mut c = Cache::new(6);
    c.set_at("a", Json::UInt(1), 0);
    c.set_at("b", Json::UInt(2), 0);
    assert_eq!(c.get_at("a", 1), Some(Json::UInt(1)));
    assert_eq!(c.get_at("b", 1), Some(Json::UInt(2)));
}

#[test]
fn cache_key_is_sha256_hex() {
    // sha256("abc"), lowercase hex
    assert_eq!(
        Cache::get_cache_key("abc"),
        "ba7816bf8f01cfea414140de5dae2223b00361a396177a9cb410ff61f20015ad"
    );
    // matches a direct use of the digest and hex crates
    let direct = hex::encode(<sha2::Sha256 as sha2::Digest>::digest(
        "rest:/repos/a/b".as_bytes(),
    ));
    assert_eq!(Cache::get_cache_key("rest:/repos/a/b"), direct);
}

#[test]
fn cache_path_appends_json_suffix() {
    let c = Cache::new(6);
    assert_eq!(
        c.get_cache_path("abc"),
        "ba7816bf8f01cfea414140de5dae2223b00361a396177a9cb410ff61f20015ad.json"
    );
}

#[test]
fn deep_values_round_trip() {
    let mut c = Cache::new(6);
    let v = Json::Obj(vec![
        (String::from("views"), Json::Arr(vec![Json::UInt(1), Json::Null])),
        (String::from("note"), Json::Str(String::from("hi"))),
    ]);
    c.set_at("k", v.clone(), 5);
    assert_eq!(c.get_at("k", 6), Some(v));
}

#[test]
fn system_clock_round_trip() {
    let mut c = Cache::new(6);
    c.set("live", Json::UInt(41));
    assert_eq!(c.get("live"), Some(Json::UInt(41)));
}
