use github_stats::cache::Cache;
use github_stats::client::{
    graphql_check_status, notice_repo, rest_cache_key, rest_get_batch_outcome, rest_get_outcome,
    rest_url, run_rest_protocol, ApiError, RestEvent, RestProtocol, RestStep,
};
use github_stats::json::Json;

#[test]
fn graphql_success_status_passes() {
    assert!(graphql_check_status(200, String::new()).is_ok());
    assert!(graphql_check_status(299, String::new()).is_ok());
}

#[test]
fn graphql_error_status_carries_status_and_body() {
    let r = graphql_check_status(502, String::from("bad gateway"));
    match r {
        Err(ApiError::GraphqlStatus { status, body }) => {
            assert_eq!(status, 502);
            assert_eq!(body, "bad gateway");
        }
        _ => panic!("expected a GraphQL status failure"),
    }
}

#[test]
fn rest_key_is_namespaced() {
    assert_eq!(rest_cache_key("/repos/a/b"), "rest:/repos/a/b");
}

#[test]
fn rest_url_handles_leading_slash() {
    assert_eq!(rest_url("/repos/a/b"), "https://api.github.com/repos/a/b");
    assert_eq!(rest_url("repos/a/b"), "https://api.github.com/repos/a/b");
}

#[test]
fn notice_names_the_owner_segment() {
    assert_eq!(notice_repo("/repos/owner/repo/stats/contributors"), "owner");
    assert_eq!(notice_repo("short"), "repo");
}

#[test]
fn still_computing_then_success_succeeds_and_caches() {
    let mut cache = Cache::new(6);
    let events = vec![
        RestEvent::Accepted,
        RestEvent::Accepted,
        RestEvent::Accepted,
        RestEvent::Success { body: Json::UInt(7) },
    ];
    let r = rest_get_outcome(&mut cache, 100, "/repos/a/b/stats/contributors", &events);
    match r {
        Some(Ok(v)) => assert_eq!(v, Json::UInt(7)),
        _ => panic!("expected success after three retries"),
    }
    // the result is cached: a second read needs no events at all
    let r2 = rest_get_outcome(&mut cache, 101, "/repos/a/b/stats/contributors", &vec![]);
    match r2 {
        Some(Ok(v)) => assert_eq!(v, Json::UInt(7)),
        _ => panic!("expected the cached value"),
    }
}

#[test]
fn too_many_still_computing_fails_naming_the_path() {
    let events: Vec<RestEvent> = (0..10).map(|_| RestEvent::Accepted).collect();
    let r = run_rest_protocol("/repos/a/b/stats/contributors", &events);
    match r {
        Some(Err(ApiError::TooManyRetries { path })) => {
            assert_eq!(path, "/repos/a/b/stats/contributors");
        }
        _ => panic!("expected the retry bound to fail the path"),
    }
}

#[test]
fn other_status_fails_without_retry() {
    let events = vec![RestEvent::OtherStatus { status: 404 }, RestEvent::Accepted];
    match run_rest_protocol("/x", &events) {
        Some(Err(ApiError::RestStatus { status })) => assert_eq!(status, 404),
        _ => panic!("expected a hard status failure"),
    }
}

#[test]
fn transport_failure_is_fatal() {
    let events = vec![RestEvent::Transport { message: String::from("refused") }];
    match run_rest_protocol("/x", &events) {
        Some(Err(ApiError::Transport { message })) => assert_eq!(message, "refused"),
        _ => panic!("expected a transport failure"),
    }
}

#[test]
fn exhausted_events_settle_nothing() {
    let events = vec![RestEvent::Accepted];
    assert!(run_rest_protocol("/x", &events).is_none());
}

#[test]
fn notice_fires_at_the_midpoint_retry() {
    let mut state = RestProtocol::new("/p");
    for round in 1..=9u32 {
        match state.step(&RestEvent::Accepted) {
            RestStep::RetryAfterSleep { notice } => assert_eq!(notice, round == 5),
            _ => panic!("expected a retry before the bound"),
        }
    }
    match state.step(&RestEvent::Accepted) {
        RestStep::Failed { error: ApiError::TooManyRetries { path } } => assert_eq!(path, "/p"),
        _ => panic!("expected the tenth reply to fail"),
    }
}

#[test]
fn batch_tolerates_one_failing_path() {
    let paths = vec![String::from("/a"), String::from("/b"), String::from("/c")];
    let events = vec![
        vec![RestEvent::Success { body: Json::UInt(1) }],
        vec![RestEvent::OtherStatus { status: 500 }],
        vec![RestEvent::Success { body: Json::UInt(3) }],
    ];
    let r = rest_get_batch_outcome(&paths, &events);
    assert_eq!(r.len(), 3);
    assert_eq!(r[0].0, "/a");
    match &r[0].1 {
        Ok(v) => assert_eq!(*v, Json::UInt(1)),
        Err(_) => panic!("path a must be unaffected by b"),
    }
    assert_eq!(r[1].0, "/b");
    assert!(matches!(r[1].1, Err(ApiError::RestStatus { status: 500 })));
    assert_eq!(r[2].0, "/c");
    match &r[2].1 {
        Ok(v) => assert_eq!(*v, Json::UInt(3)),
        Err(_) => panic!("path c must be unaffected by b"),
    }
}

#[test]
fn batch_drops_unsettled_paths() {
    let paths = vec![String::from("/a"), String::from("/b")];
    let events = vec![vec![], vec![RestEvent::Success { body: Json::Null }]];
    let r = rest_get_batch_outcome(&paths, &events);
    assert_eq!(r.len(), 1);
    assert_eq!(r[0].0, "/b");
}
