//! Bounded API client: the decision logic.
//!
//! The client caps in-flight requests with an admission gate and speaks the
//! upstream's asynchronous-computation protocol: an "accepted" reply means
//! an expensive statistic is not ready yet, and the request tries again
//! after a pause, giving its permit back first so that other requests can
//! proceed meanwhile.  Pauses, network calls and the admission gate
//! belong to the surrounding process; every decision — what a status
//! means, when to try again, when to give up, what to cache — lives here.

use vstd::prelude::*;

verus! {

use vstd::string::StringExecFns;
use vstd::string::StrSliceExecFns;
use crate::json::{Json, JsonV};
use crate::text::segments;
use crate::cache::{Cache, cache_digest, spec_get};

/// How many "still computing" replies one path may answer before the
/// request fails.
pub const MAX_RETRIES: u32 = 10;

/// At which retry count a diagnostic notice is emitted.
pub const NOTICE_RETRIES: u32 = 5;

/// Why a request failed.
#[derive(Debug)]
pub enum ApiError {
    /// The GraphQL endpoint answered a non-success status; deterministic
    /// for a given query, so never retried.
    GraphqlStatus { status: u16, body: String },
    /// A REST endpoint answered a status that is neither success nor
    /// "accepted".
    RestStatus { status: u16 },
    /// A REST endpoint kept answering "accepted" past the retry bound.
    TooManyRetries { path: String },
    /// The transport failed before any status arrived.
    Transport { message: String },
    /// The contribution-years listing was missing from the response.
    MissingContributionYears,
}

/// The view of an error.
pub enum ApiErrorV {
    GraphqlStatus { status: u16, body: Seq<char> },
    RestStatus { status: u16 },
    TooManyRetries { path: Seq<char> },
    Transport { message: Seq<char> },
    MissingContributionYears,
}

impl View for ApiError {
    type V = ApiErrorV;

    open spec fn view(&self) -> ApiErrorV {
        match self {
            ApiError::GraphqlStatus { status, body } => ApiErrorV::GraphqlStatus {
                status: *status,
                body: body@,
            },
            ApiError::RestStatus { status } => ApiErrorV::RestStatus { status: *status },
            ApiError::TooManyRetries { path } => ApiErrorV::TooManyRetries { path: path@ },
            ApiError::Transport { message } => ApiErrorV::Transport { message: message@ },
            ApiError::MissingContributionYears => ApiErrorV::MissingContributionYears,
        }
    }
}

/// Whether an HTTP status counts as success.
pub open spec fn is_success_status(status: u16) -> bool {
    200 <= status < 300
}

/// Decides a GraphQL response: a success status passes, anything else is a
/// hard failure carrying the status and the response body; no retry.
pub fn graphql_check_status(status: u16, body: String) -> (r: Result<(), ApiError>)
    ensures
        is_success_status(status) ==> r is Ok,
        !is_success_status(status) ==> (r matches Err(e) && e@ == (ApiErrorV::GraphqlStatus {
            status,
            body: body@,
        })),
{
    if 200 <= status && status < 300 {
        Ok(())
    } else {
        Err(ApiError::GraphqlStatus { status, body })
    }
}

/// The cache key of a REST path, namespaced so REST reads never collide
/// with anything else.
pub open spec fn rest_key(path: Seq<char>) -> Seq<char> {
    "rest:"@ + path
}

/// Builds the cache key of a REST path.
pub fn rest_cache_key(path: &str) -> (r: String)
    ensures
        r@ == rest_key(path@),
{
    let mut s = String::from_str("rest:");
    s.append(path);
    s
}

/// The full URL of a REST path under the upstream base.
pub open spec fn rest_url_of(path: Seq<char>) -> Seq<char> {
    if path.len() > 0 && path[0] == '/' {
        "https://api.github.com"@ + path
    } else {
        "https://api.github.com/"@ + path
    }
}

/// Builds the full URL of a REST path.
pub fn rest_url(path: &str) -> (r: String)
    ensures
        r@ == rest_url_of(path@),
{
    let slash = path.unicode_len() > 0 && path.get_char(0) == '/';
    let mut s = if slash {
        String::from_str("https://api.github.com")
    } else {
        String::from_str("https://api.github.com/")
    };
    s.append(path);
    s
}

/// The repository a path's diagnostic notice names: the path's third
/// `/`-separated segment, or "repo" where there is none.
pub fn notice_repo(path: &str) -> (r: String)
    ensures
        ({
            let parts = crate::text::split_slash(path@);
            if parts.len() > 2 {
                r@ == parts[2]
            } else {
                r@ == "repo"@
            }
        }),
{
    let segs = segments(path);
    if segs.len() > 2 {
        proof {
            assert(segs@.map_values(|x: String| x@)[2] == segs@[2]@);
        }
        segs[2].clone()
    } else {
        String::from_str("repo")
    }
}

/// What one REST attempt answered.
pub enum RestEvent {
    /// A success status with its parsed body.
    Success { body: Json },
    /// An "accepted" status: the statistic is still being computed.
    Accepted,
    /// Any other status.
    OtherStatus { status: u16 },
    /// The transport failed.
    Transport { message: String },
}

/// The view of an attempt's answer.
pub enum RestEventV {
    Success { body: JsonV },
    Accepted,
    OtherStatus { status: u16 },
    Transport { message: Seq<char> },
}

impl View for RestEvent {
    type V = RestEventV;

    open spec fn view(&self) -> RestEventV {
        match self {
            RestEvent::Success { body } => RestEventV::Success { body: body@ },
            RestEvent::Accepted => RestEventV::Accepted,
            RestEvent::OtherStatus { status } => RestEventV::OtherStatus { status: *status },
            RestEvent::Transport { message } => RestEventV::Transport { message: message@ },
        }
    }
}

/// The views of a list of attempt answers.
pub open spec fn events_view(evs: Seq<RestEvent>) -> Seq<RestEventV> {
    Seq::new(evs.len(), |i: int| evs[i]@)
}

/// The retry state of one REST request: its path and how many "accepted"
/// replies it has seen.
pub struct RestProtocol {
    pub path: String,
    pub retries: u32,
}

/// What the process around the client must do next with a request.
pub enum RestStep {
    /// The value arrived: cache it under the path's key and return it.
    Done { value: Json },
    /// Release the admission permit, sleep one interval, re-acquire and
    /// retry; `notice` asks for a diagnostic line first.
    RetryAfterSleep { notice: bool },
    /// Give up with this error.
    Failed { error: ApiError },
}

impl RestProtocol {
    /// A fresh request state for `path`.
    pub fn new(path: &str) -> (r: RestProtocol)
        ensures
            r.path@ == path@,
            r.retries == 0,
    {
        RestProtocol { path: String::from_str(path), retries: 0 }
    }

    /// Advances the request by one attempt's answer: success is done,
    /// "accepted" retries until the bound and then fails naming the path,
    /// any other status or a transport failure is fatal at once.
    pub fn step(&mut self, event: &RestEvent) -> (r: RestStep)
        requires
            old(self).retries < MAX_RETRIES,
        ensures
            final(self).path == old(self).path,
            match event {
                RestEvent::Success { body } => final(self).retries == old(self).retries && (
                r matches RestStep::Done { value } && value@ == body@),
                RestEvent::Accepted => {
                    &&& final(self).retries == old(self).retries + 1
                    &&& if old(self).retries + 1 >= MAX_RETRIES {
                        r matches RestStep::Failed { error } && error@ == (
                        ApiErrorV::TooManyRetries { path: old(self).path@ })
                    } else {
                        r matches RestStep::RetryAfterSleep { notice } && notice == (old(
                            self,
                        ).retries + 1 == NOTICE_RETRIES)
                    }
                },
                RestEvent::OtherStatus { status } => final(self).retries == old(self).retries
                    && (r matches RestStep::Failed { error } && error@ == (ApiErrorV::RestStatus {
                    status: *status,
                })),
                RestEvent::Transport { message } => final(self).retries == old(self).retries && (
                r matches RestStep::Failed { error } && error@ == (ApiErrorV::Transport {
                    message: message@,
                })),
            },
    {
        match event {
            RestEvent::Success { body } => RestStep::Done { value: body.clone() },
            RestEvent::Accepted => {
                self.retries = self.retries + 1;
                if self.retries >= MAX_RETRIES {
                    RestStep::Failed {
                        error: ApiError::TooManyRetries { path: self.path.clone() },
                    }
                } else {
                    RestStep::RetryAfterSleep { notice: self.retries == NOTICE_RETRIES }
                }
            },
            RestEvent::OtherStatus { status } => RestStep::Failed {
                error: ApiError::RestStatus { status: *status },
            },
            RestEvent::Transport { message } => RestStep::Failed {
                error: ApiError::Transport { message: message.clone() },
            },
        }
    }
}

/// What a run of the retry protocol settles to, given the answers the
/// upstream gives in order: the first success, the first fatal status or
/// transport failure, or too many "accepted" replies; nothing if the
/// answers run out first.
pub open spec fn spec_protocol(
    path: Seq<char>,
    evs: Seq<RestEventV>,
    retries: int,
) -> Option<Result<JsonV, ApiErrorV>>
    decreases evs.len(),
{
    if evs.len() == 0 {
        None
    } else {
        match evs[0] {
            RestEventV::Success { body } => Some(Ok(body)),
            RestEventV::OtherStatus { status } => Some(Err(ApiErrorV::RestStatus { status })),
            RestEventV::Transport { message } => Some(Err(ApiErrorV::Transport { message })),
            RestEventV::Accepted => if retries + 1 >= MAX_RETRIES {
                Some(Err(ApiErrorV::TooManyRetries { path }))
            } else {
                spec_protocol(path, evs.drop_first(), retries + 1)
            },
        }
    }
}

/// The view of a settled request.
pub open spec fn outcome_view(o: Result<Json, ApiError>) -> Result<JsonV, ApiErrorV> {
    match o {
        Ok(v) => Ok(v@),
        Err(e) => Err(e@),
    }
}

/// Runs the retry protocol over the answers a path's attempts give, in
/// order, as `spec_protocol` says; nothing if they run out first.
pub fn run_rest_protocol(path: &str, events: &Vec<RestEvent>) -> (r: Option<
    Result<Json, ApiError>,
>)
    ensures
        match r {
            Some(o) => spec_protocol(path@, events_view(events@), 0) == Some(outcome_view(o)),
            None => spec_protocol(path@, events_view(events@), 0) is None,
        },
{
    let ghost evs = events_view(events@);
    let mut state = RestProtocol::new(path);
    proof {
        assert(evs.skip(0) =~= evs);
    }
    let mut i: usize = 0;
    while i < events.len()
        invariant
            i <= events@.len(),
            evs == events_view(events@),
            evs.len() == events@.len(),
            state.path@ == path@,
            state.retries < MAX_RETRIES,
            state.retries <= i,
            spec_protocol(path@, evs, 0) == spec_protocol(
                path@,
                evs.skip(i as int),
                state.retries as int,
            ),
        decreases events@.len() - i,
    {
        proof {
            assert(evs.skip(i as int)[0] == evs[i as int]);
            assert(evs.skip(i as int).drop_first() =~= evs.skip(i as int + 1));
        }
        let step = state.step(&events[i]);
        match step {
            RestStep::Done { value } => {
                return Some(Ok(value));
            },
            RestStep::Failed { error } => {
                return Some(Err(error));
            },
            RestStep::RetryAfterSleep { notice: _ } => {},
        }
        i += 1;
    }
    proof {
        assert(evs.skip(i as int) =~= Seq::<RestEventV>::empty());
    }
    None
}

/// A REST read as the client performs it: answer from the cache when it
/// can, otherwise run the retry protocol and cache what it returns.
/// `events` are the answers the network would give each attempt, in order.
pub fn rest_get_outcome(
    cache: &mut Cache,
    now: i64,
    path: &str,
    events: &Vec<RestEvent>,
) -> (r: Option<Result<Json, ApiError>>)
    requires
        old(cache).wf(),
    ensures
        final(cache).wf(),
        final(cache).spec_expiry_hours() == old(cache).spec_expiry_hours(),
        ({
            let d = cache_digest(rest_key(path@));
            let cached = spec_get(old(cache).model(), d, now as int, old(cache).spec_expiry_hours());
            match cached {
                Some(v) => r matches Some(o) && outcome_view(o) == Ok::<JsonV, ApiErrorV>(v)
                    && final(cache).model() == old(cache).model(),
                None => {
                    let swept = old(cache).model().remove_keys(set![d]);
                    match spec_protocol(path@, events_view(events@), 0) {
                        Some(Ok(v)) => r matches Some(o) && outcome_view(o) == Ok::<
                            JsonV,
                            ApiErrorV,
                        >(v) && final(cache).model() == swept.insert(d, (now as int, v)),
                        Some(Err(e)) => r matches Some(o) && outcome_view(o) == Err::<
                            JsonV,
                            ApiErrorV,
                        >(e) && final(cache).model() == swept,
                        None => r is None && final(cache).model() == swept,
                    }
                },
            }
        }),
{
    let key = rest_cache_key(path);
    match cache.get_at(key.as_str(), now) {
        Some(v) => Some(Ok(v)),
        None => {
            match run_rest_protocol(path, events) {
                Some(Ok(value)) => {
                    let stored = value.clone();
                    cache.set_at(key.as_str(), stored, now);
                    Some(Ok(value))
                },
                Some(Err(e)) => Some(Err(e)),
                None => None,
            }
        },
    }
}

/// What a whole batch settles to: one entry per path that completed, in
/// order, each the outcome of that path's own answers alone; a path whose
/// answers run out is dropped.
pub open spec fn spec_batch(
    paths: Seq<Seq<char>>,
    evss: Seq<Seq<RestEventV>>,
) -> Seq<(Seq<char>, Result<JsonV, ApiErrorV>)>
    decreases paths.len(),
{
    if paths.len() == 0 || evss.len() < paths.len() {
        Seq::empty()
    } else {
        let front = spec_batch(paths.drop_last(), evss.drop_last());
        match spec_protocol(paths.last(), evss.last(), 0) {
            Some(o) => front.push((paths.last(), o)),
            None => front,
        }
    }
}

/// The batch read: one independent protocol run per path.  Each entry of
/// the result depends only on its own path's answers, so one path's
/// failure cannot touch its siblings; failures are entries, not aborts.
pub fn rest_get_batch_outcome(paths: &Vec<String>, events: &Vec<Vec<RestEvent>>) -> (r: Vec<
    (String, Result<Json, ApiError>),
>)
    requires
        events@.len() == paths@.len(),
    ensures
        ({
            let pv = paths@.map_values(|s: String| s@);
            let ev = events@.map_values(|es: Vec<RestEvent>| events_view(es@));
            Seq::new(r@.len(), |i: int| (r@[i].0@, outcome_view(r@[i].1))) == spec_batch(pv, ev)
        }),
{
    let ghost pv = paths@.map_values(|s: String| s@);
    let ghost ev = events@.map_values(|es: Vec<RestEvent>| events_view(es@));
    let mut out: Vec<(String, Result<Json, ApiError>)> = Vec::new();
    proof {
        assert(pv.take(0) =~= Seq::<Seq<char>>::empty());
        assert(ev.take(0) =~= Seq::<Seq<RestEventV>>::empty());
        assert(Seq::new(out@.len(), |i: int| (out@[i].0@, outcome_view(out@[i].1))) =~= spec_batch(
            pv.take(0),
            ev.take(0),
        ));
    }
    let mut i: usize = 0;
    while i < paths.len()
        invariant
            i <= paths@.len(),
            events@.len() == paths@.len(),
            pv == paths@.map_values(|s: String| s@),
            ev == events@.map_values(|es: Vec<RestEvent>| events_view(es@)),
            pv.len() == paths@.len(),
            ev.len() == paths@.len(),
            Seq::new(out@.len(), |k: int| (out@[k].0@, outcome_view(out@[k].1))) == spec_batch(
                pv.take(i as int),
                ev.take(i as int),
            ),
        decreases paths@.len() - i,
    {
        let ghost pre = Seq::new(out@.len(), |k: int| (out@[k].0@, outcome_view(out@[k].1)));
        proof {
            assert(pv.take(i as int + 1).drop_last() =~= pv.take(i as int));
            assert(ev.take(i as int + 1).drop_last() =~= ev.take(i as int));
            assert(pv.take(i as int + 1).last() == pv[i as int]);
            assert(ev.take(i as int + 1).last() == ev[i as int]);
        }
        match run_rest_protocol(paths[i].as_str(), &events[i]) {
            Some(o) => {
                out.push((paths[i].clone(), o));
            },
            None => {},
        }
        proof {
            assert(Seq::new(out@.len(), |k: int| (out@[k].0@, outcome_view(out@[k].1)))
                =~= spec_batch(pv.take(i as int + 1), ev.take(i as int + 1)));
        }
        i += 1;
    }
    proof {
        assert(pv.take(pv.len() as int) =~= pv);
        assert(ev.take(ev.len() as int) =~= ev);
    }
    out
}

} // verus!
