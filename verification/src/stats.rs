//! Stats aggregator.
//!
//! Folds repository listings, contributor statistics, traffic views and
//! contribution counts into one weighted report.  Every fold here is a pure
//! function of decoded JSON values; the surrounding process fetches pages
//! and batches through the client and hands the responses in.
//!
//! Counters accumulate with saturation at their type's maximum, so a fold
//! is total for every input.

use vstd::prelude::*;

verus! {

use vstd::string::StringExecFns;
use crate::json::{Json, JsonV, jview, jview_seq, lemma_jview_seq, jview_entries, lemma_jview_entries, lookup};
use crate::text::{lower, contains_ignore_case, str_eq, str_eq_ignore_case, vec_contains,
    vec_contains_ignore_case, segments, split_slash, int_dec_str, i64_to_string};
use crate::client::{ApiError, ApiErrorV};
use vstd::arithmetic::div_mod::{lemma_div_is_ordered, lemma_fundamental_div_mod,
    lemma_fundamental_div_mod_converse};
use vstd::arithmetic::mul::lemma_mul_inequality;

/// `a + b`, stopping at the largest `u64`.
pub open spec fn sat_add64(a: u64, b: u64) -> u64 {
    if a + b > u64::MAX {
        u64::MAX
    } else {
        (a + b) as u64
    }
}

/// `a + b`, stopping at the largest `u32`.
pub open spec fn sat_add32(a: u32, b: u32) -> u32 {
    if a + b > u32::MAX {
        u32::MAX
    } else {
        (a + b) as u32
    }
}

/// Executable saturating add on `u64`.
pub fn sat_add_u64(a: u64, b: u64) -> (r: u64)
    ensures
        r == sat_add64(a, b),
{
    match a.checked_add(b) {
        Some(c) => c,
        None => u64::MAX,
    }
}

/// Executable saturating add on `u32`.
pub fn sat_add_u32(a: u32, b: u32) -> (r: u32)
    ensures
        r == sat_add32(a, b),
{
    match a.checked_add(b) {
        Some(c) => c,
        None => u32::MAX,
    }
}

/// One language's aggregate entry in the report.
pub struct LanguageInfo {
    /// Weighted byte count accumulated across repositories.
    pub size: u64,
    /// How many repositories contributed this language.
    pub occurrences: u32,
    /// Display color, fixed by the first repository observed using it.
    pub color: Option<String>,
    /// Share of the total weighted size, in thousandths of a percent;
    /// derived once collection is complete.
    pub percent_milli: u64,
}

/// The view of a language entry.
pub struct LangIV {
    pub size: u64,
    pub occurrences: u32,
    pub color: Option<Seq<char>>,
    pub percent_milli: u64,
}

impl View for LanguageInfo {
    type V = LangIV;

    open spec fn view(&self) -> LangIV {
        LangIV {
            size: self.size,
            occurrences: self.occurrences,
            color: match self.color {
                Some(c) => Some(c@),
                None => None,
            },
            percent_milli: self.percent_milli,
        }
    }
}

/// The final aggregated report.
pub struct Stats {
    pub name: String,
    pub username: String,
    pub total_stars: u64,
    pub total_forks: u64,
    pub total_contributions: u64,
    pub total_repos: usize,
    pub lines_added: u64,
    pub lines_deleted: u64,
    pub total_views: u64,
    pub languages: Vec<(String, LanguageInfo)>,
}

/// The view of the languages table.
pub open spec fn langs_view(s: Seq<(String, LanguageInfo)>) -> Seq<(Seq<char>, LangIV)> {
    Seq::new(s.len(), |i: int| (s[i].0@, s[i].1@))
}

/// The view of a report.
pub struct StatsV {
    pub name: Seq<char>,
    pub username: Seq<char>,
    pub total_stars: u64,
    pub total_forks: u64,
    pub total_contributions: u64,
    pub total_repos: int,
    pub lines_added: u64,
    pub lines_deleted: u64,
    pub total_views: u64,
    pub languages: Seq<(Seq<char>, LangIV)>,
}

impl View for Stats {
    type V = StatsV;

    open spec fn view(&self) -> StatsV {
        StatsV {
            name: self.name@,
            username: self.username@,
            total_stars: self.total_stars,
            total_forks: self.total_forks,
            total_contributions: self.total_contributions,
            total_repos: self.total_repos as int,
            lines_added: self.lines_added,
            lines_deleted: self.lines_deleted,
            total_views: self.total_views,
            languages: langs_view(self.languages@),
        }
    }
}

impl Stats {
    /// An empty report for `username`, all counters zero.
    pub fn new(username: &str) -> (r: Stats)
        ensures
            r@ == (StatsV {
                name: Seq::<char>::empty(),
                username: username@,
                total_stars: 0,
                total_forks: 0,
                total_contributions: 0,
                total_repos: 0,
                lines_added: 0,
                lines_deleted: 0,
                total_views: 0,
                languages: Seq::<(Seq<char>, LangIV)>::empty(),
            }),
    {
        let r = Stats {
            name: String::new(),
            username: String::from_str(username),
            total_stars: 0,
            total_forks: 0,
            total_contributions: 0,
            total_repos: 0,
            lines_added: 0,
            lines_deleted: 0,
            total_views: 0,
            languages: Vec::new(),
        };
        proof {
            assert(langs_view(r.languages@) =~= Seq::<(Seq<char>, LangIV)>::empty());
        }
        r
    }
}

/// One raw language observation from a repository listing.
pub struct RepoLanguageEntry {
    pub name: String,
    pub size: u64,
    pub color: Option<String>,
}

/// A raw language observation, in the model.
pub struct LangEdgeV {
    pub name: Seq<char>,
    pub size: u64,
    pub color: Option<Seq<char>>,
}

impl View for RepoLanguageEntry {
    type V = LangEdgeV;

    open spec fn view(&self) -> LangEdgeV {
        LangEdgeV {
            name: self.name@,
            size: self.size,
            color: match self.color {
                Some(c) => Some(c@),
                None => None,
            },
        }
    }
}

/// The raw language list of one repository, held until weighting.
pub struct RepoData {
    pub languages: Vec<RepoLanguageEntry>,
}

/// The view of the per-repository raw language table.
pub open spec fn repo_langs_view(s: Seq<(String, RepoData)>) -> Seq<(Seq<char>, Seq<LangEdgeV>)> {
    Seq::new(s.len(), |i: int| (s[i].0@, s[i].1.languages@.map_values(|e: RepoLanguageEntry| e@)))
}

/// The aggregator's configuration, in the model.
pub struct CfgV {
    pub username: Seq<char>,
    pub excluded_repos: Seq<Seq<char>>,
    pub excluded_langs: Seq<Seq<char>>,
    pub exclude_forked: bool,
}

/// The state threaded through repository discovery: names seen so far, raw
/// language lists, and the star and fork totals.
pub struct P1StateV {
    pub repos: Seq<Seq<char>>,
    pub repo_langs: Seq<(Seq<char>, Seq<LangEdgeV>)>,
    pub stars: u64,
    pub forks: u64,
}

/// The string field of an optional JSON value, if it is a string.
pub open spec fn jstr(v: Option<JsonV>) -> Option<Seq<char>> {
    match v {
        Some(JsonV::Str(s)) => Some(s),
        _ => None,
    }
}

/// A field of an optional JSON value.
pub open spec fn opt_get(v: Option<JsonV>, key: Seq<char>) -> Option<JsonV> {
    match v {
        Some(j) => j.get(key),
        None => None,
    }
}

/// The `u64` reading of an optional JSON value.
pub open spec fn ju64(v: Option<JsonV>) -> Option<u64> {
    match v {
        Some(j) => j.as_u64(),
        None => None,
    }
}

/// The full name of a repository node, if it carries one.
pub open spec fn spec_repo_name(node: JsonV) -> Option<Seq<char>> {
    jstr(node.get("nameWithOwner"@))
}

/// A node's star count; absent or malformed counts as zero.
pub open spec fn node_stars(node: JsonV) -> u64 {
    match ju64(opt_get(node.get("stargazers"@), "totalCount"@)) {
        Some(n) => n,
        None => 0,
    }
}

/// A node's fork count; absent or malformed counts as zero.
pub open spec fn node_forks(node: JsonV) -> u64 {
    match ju64(node.get("forkCount"@)) {
        Some(n) => n,
        None => 0,
    }
}

/// A language edge's name; a missing name reads as "Other".
pub open spec fn edge_name(e: JsonV) -> Seq<char> {
    match jstr(opt_get(e.get("node"@), "name"@)) {
        Some(s) => s,
        None => "Other"@,
    }
}

/// A language edge's byte size; absent or malformed counts as zero.
pub open spec fn edge_size(e: JsonV) -> u64 {
    match ju64(e.get("size"@)) {
        Some(n) => n,
        None => 0,
    }
}

/// A language edge's display color, if any.
pub open spec fn edge_color(e: JsonV) -> Option<Seq<char>> {
    jstr(opt_get(e.get("node"@), "color"@))
}

/// Whether a language name is dropped: "HTML" always is, and so is any name
/// in the configured exclusion set, case-insensitively.
pub open spec fn lang_excluded(cfg: CfgV, name: Seq<char>) -> bool {
    lower(name) == lower("html"@) || contains_ignore_case(cfg.excluded_langs, name)
}

/// The filtered raw language list of an edge array, in order.
pub open spec fn filter_edges(cfg: CfgV, edges: Seq<JsonV>) -> Seq<LangEdgeV>
    decreases edges.len(),
{
    if edges.len() == 0 {
        Seq::empty()
    } else {
        let front = filter_edges(cfg, edges.drop_last());
        let e = edges.last();
        if lang_excluded(cfg, edge_name(e)) {
            front
        } else {
            front.push(LangEdgeV { name: edge_name(e), size: edge_size(e), color: edge_color(e) })
        }
    }
}

/// A node's filtered raw language list.
pub open spec fn node_langs(cfg: CfgV, node: JsonV) -> Seq<LangEdgeV> {
    match opt_get(node.get("languages"@), "edges"@) {
        Some(JsonV::Arr(a)) => filter_edges(cfg, a),
        _ => Seq::empty(),
    }
}

/// What discovering one repository node does to the discovery state: a node
/// without a name, an excluded name, or a name already seen changes
/// nothing; otherwise the name is recorded with its raw languages, and its
/// stars and forks are added.
pub open spec fn spec_process_repo(cfg: CfgV, node: JsonV, st: P1StateV) -> P1StateV {
    match spec_repo_name(node) {
        None => st,
        Some(name) => if cfg.excluded_repos.contains(name) || st.repos.contains(name) {
            st
        } else {
            P1StateV {
                repos: st.repos.push(name),
                repo_langs: st.repo_langs.push((name, node_langs(cfg, node))),
                stars: sat_add64(st.stars, node_stars(node)),
                forks: sat_add64(st.forks, node_forks(node)),
            }
        },
    }
}

/// The stats aggregator: the target user and the exclusion configuration.
pub struct StatsCollector {
    pub username: String,
    pub excluded_repos: Vec<String>,
    pub excluded_langs: Vec<String>,
    pub exclude_forked: bool,
}

impl StatsCollector {
    /// The configuration, in the model.
    pub open spec fn cfg(self) -> CfgV {
        CfgV {
            username: self.username@,
            excluded_repos: self.excluded_repos@.map_values(|s: String| s@),
            excluded_langs: self.excluded_langs@.map_values(|s: String| s@),
            exclude_forked: self.exclude_forked,
        }
    }

    /// A collector for `username` with the given exclusions.
    pub fn new(
        username: &str,
        excluded_repos: Vec<String>,
        excluded_langs: Vec<String>,
        exclude_forked: bool,
    ) -> (r: StatsCollector)
        ensures
            r.cfg() == (CfgV {
                username: username@,
                excluded_repos: excluded_repos@.map_values(|s: String| s@),
                excluded_langs: excluded_langs@.map_values(|s: String| s@),
                exclude_forked,
            }),
    {
        StatsCollector {
            username: String::from_str(username),
            excluded_repos,
            excluded_langs,
            exclude_forked,
        }
    }

    /// Folds one repository node into the discovery state, as
    /// `spec_process_repo` says; every other report field is untouched.
    pub fn process_repo(
        &self,
        repo: &Json,
        repos: &mut Vec<String>,
        repo_languages: &mut Vec<(String, RepoData)>,
        stats: &mut Stats,
    )
        ensures
            ({
                let st0 = P1StateV {
                    repos: old(repos)@.map_values(|s: String| s@),
                    repo_langs: repo_langs_view(old(repo_languages)@),
                    stars: old(stats).total_stars,
                    forks: old(stats).total_forks,
                };
                let st1 = spec_process_repo(self.cfg(), repo@, st0);
                &&& final(repos)@.map_values(|s: String| s@) == st1.repos
                &&& repo_langs_view(final(repo_languages)@) == st1.repo_langs
                &&& final(stats).total_stars == st1.stars
                &&& final(stats).total_forks == st1.forks
            }),
            final(stats).name == old(stats).name,
            final(stats).username == old(stats).username,
            final(stats).total_contributions == old(stats).total_contributions,
            final(stats).total_repos == old(stats).total_repos,
            final(stats).lines_added == old(stats).lines_added,
            final(stats).lines_deleted == old(stats).lines_deleted,
            final(stats).total_views == old(stats).total_views,
            final(stats).languages == old(stats).languages,
    {
        let ghost st0 = P1StateV {
            repos: repos@.map_values(|s: String| s@),
            repo_langs: repo_langs_view(repo_languages@),
            stars: stats.total_stars,
            forks: stats.total_forks,
        };
        if repo.is_null() {
            return ;
        }
        let name: &str = match repo.get("nameWithOwner") {
            Some(j) => match j.as_str() {
                Some(s) => s,
                None => {
                    return ;
                },
            },
            None => {
                return ;
            },
        };
        if vec_contains(&self.excluded_repos, name) || vec_contains(repos, name) {
            return ;
        }
        repos.push(String::from_str(name));
        proof {
            assert(final(repos)@.map_values(|s: String| s@) =~= st0.repos.push(name@));
        }
        match repo.get2("stargazers", "totalCount") {
            Some(tc) => match tc.as_u64() {
                Some(n) => {
                    stats.total_stars = sat_add_u64(stats.total_stars, n);
                },
                None => {},
            },
            None => {},
        }
        match repo.get("forkCount") {
            Some(fc) => match fc.as_u64() {
                Some(n) => {
                    stats.total_forks = sat_add_u64(stats.total_forks, n);
                },
                None => {},
            },
            None => {},
        }
        let mut languages: Vec<RepoLanguageEntry> = Vec::new();
        match self.filter_node_languages(repo, &mut languages) {
            _ => {},
        }
        let name_owned = String::from_str(name);
        repo_languages.push((name_owned, RepoData { languages }));
        proof {
            assert(repo_langs_view(final(repo_languages)@) =~= st0.repo_langs.push(
                (name@, node_langs(self.cfg(), repo@)),
            ));
        }
    }

    /// Collects the node's language edges that survive the exclusion
    /// filter, in order, into `out`.
    fn filter_node_languages(&self, repo: &Json, out: &mut Vec<RepoLanguageEntry>) -> (r: bool)
        requires
            old(out)@.len() == 0,
        ensures
            final(out)@.map_values(|e: RepoLanguageEntry| e@) == node_langs(self.cfg(), repo@),
    {
        let edges: &Vec<Json> = match self.language_edges(repo) {
            Some(v) => v,
            None => {
                proof {
                    assert(out@.map_values(|e: RepoLanguageEntry| e@) =~= Seq::<
                        LangEdgeV,
                    >::empty());
                }
                return false;
            },
        };
        let ghost evs = jview_seq(edges@);
        proof {
            lemma_jview_seq(edges@);
            assert(evs.take(0) =~= Seq::<JsonV>::empty());
            assert(out@.map_values(|e: RepoLanguageEntry| e@) =~= filter_edges(
                self.cfg(),
                evs.take(0),
            ));
        }
        let mut i: usize = 0;
        while i < edges.len()
            invariant
                i <= edges@.len(),
                evs == jview_seq(edges@),
                evs.len() == edges@.len(),
                forall|j: int| 0 <= j < edges@.len() ==> evs[j] == jview(edges@[j]),
                out@.map_values(|e: RepoLanguageEntry| e@) == filter_edges(
                    self.cfg(),
                    evs.take(i as int),
                ),
            decreases edges@.len() - i,
        {
            let e = &edges[i];
            let lang_name: String = match e.get2("node", "name") {
                Some(j) => match j.as_str() {
                    Some(s) => String::from_str(s),
                    None => String::from_str("Other"),
                },
                None => String::from_str("Other"),
            };
            proof {
                assert(lang_name@ == edge_name(evs[i as int]));
                assert(evs.take(i as int + 1).drop_last() =~= evs.take(i as int));
                assert(evs.take(i as int + 1).last() == evs[i as int]);
            }
            let excluded = str_eq_ignore_case(lang_name.as_str(), "html") || vec_contains_ignore_case(
                &self.excluded_langs,
                lang_name.as_str(),
            );
            if !excluded {
                let size: u64 = match e.get("size") {
                    Some(j) => match j.as_u64() {
                        Some(n) => n,
                        None => 0,
                    },
                    None => 0,
                };
                let color: Option<String> = match e.get2("node", "color") {
                    Some(j) => match j.as_str() {
                        Some(s) => Some(String::from_str(s)),
                        None => None,
                    },
                    None => None,
                };
                out.push(RepoLanguageEntry { name: lang_name, size, color });
                proof {
                    assert(out@.map_values(|e2: RepoLanguageEntry| e2@) =~= filter_edges(
                        self.cfg(),
                        evs.take(i as int + 1),
                    ));
                }
            } else {
                proof {
                    assert(out@.map_values(|e2: RepoLanguageEntry| e2@) =~= filter_edges(
                        self.cfg(),
                        evs.take(i as int + 1),
                    ));
                }
            }
            i += 1;
        }
        proof {
            assert(evs.take(evs.len() as int) =~= evs);
        }
        true
    }

    /// The node's `languages.edges` array, if it is there and is an array.
    fn language_edges<'a>(&self, repo: &'a Json) -> (r: Option<&'a Vec<Json>>)
        ensures
            match r {
                Some(v) => opt_get(repo@.get("languages"@), "edges"@) == Some(
                    JsonV::Arr(jview_seq(v@)),
                ) && node_langs(self.cfg(), repo@) == filter_edges(self.cfg(), jview_seq(v@)),
                None => !(opt_get(repo@.get("languages"@), "edges"@) matches Some(
                    JsonV::Arr(_),
                )) && node_langs(self.cfg(), repo@) == Seq::<LangEdgeV>::empty(),
            },
    {
        match repo.get("languages") {
            Some(langs) => match langs.get("edges") {
                Some(edges) => edges.as_array(),
                None => None,
            },
            None => None,
        }
    }
}


/// Lines added in one week record; absent or malformed counts as zero.
pub open spec fn week_added(w: JsonV) -> u64 {
    match ju64(w.get("a"@)) {
        Some(n) => n,
        None => 0,
    }
}

/// Lines deleted in one week record; absent or malformed counts as zero.
pub open spec fn week_deleted(w: JsonV) -> u64 {
    match ju64(w.get("d"@)) {
        Some(n) => n,
        None => 0,
    }
}

/// Total lines added over a week array, saturating.
pub open spec fn weeks_added(ws: Seq<JsonV>) -> u64
    decreases ws.len(),
{
    if ws.len() == 0 {
        0
    } else {
        sat_add64(weeks_added(ws.drop_last()), week_added(ws.last()))
    }
}

/// Total lines deleted over a week array, saturating.
pub open spec fn weeks_deleted(ws: Seq<JsonV>) -> u64
    decreases ws.len(),
{
    if ws.len() == 0 {
        0
    } else {
        sat_add64(weeks_deleted(ws.drop_last()), week_deleted(ws.last()))
    }
}

/// One contributor's week array, or empty if it is missing.
pub open spec fn contributor_weeks(c: JsonV) -> Seq<JsonV> {
    match c.get("weeks"@) {
        Some(JsonV::Arr(ws)) => ws,
        _ => Seq::empty(),
    }
}

/// One contributor's total lines added.
pub open spec fn contributor_added(c: JsonV) -> u64 {
    weeks_added(contributor_weeks(c))
}

/// One contributor's login, if the record carries one.
pub open spec fn contributor_login(c: JsonV) -> Option<Seq<char>> {
    jstr(opt_get(c.get("author"@), "login"@))
}

/// Whether a contributor record is the target user, up to ASCII case.
pub open spec fn is_user(username: Seq<char>, c: JsonV) -> bool {
    match contributor_login(c) {
        Some(l) => lower(l) == lower(username),
        None => false,
    }
}

/// Scanning a contributor array in order: the saturating total of lines
/// added, the last matching user record's lines added, and whether the user
/// appeared at all.
pub open spec fn ratio_scan(username: Seq<char>, cs: Seq<JsonV>) -> (u64, u64, bool)
    decreases cs.len(),
{
    if cs.len() == 0 {
        (0, 0, false)
    } else {
        let prev = ratio_scan(username, cs.drop_last());
        let c = cs.last();
        let a = contributor_added(c);
        (
            sat_add64(prev.0, a),
            if is_user(username, c) {
                a
            } else {
                prev.1
            },
            prev.2 || is_user(username, c),
        )
    }
}

/// One repository's contribution ratio, or the reason it fell back.
#[derive(Clone, Copy, Debug, PartialEq, Eq, Structural)]
pub enum RatioResult {
    /// The user's share of lines added, as a fraction `num / den`,
    /// capped at one.
    Calculated { num: u64, den: u64 },
    /// No contributor data was retrieved, or it was not an array.
    FallbackNoStats,
    /// The contributor array was empty.
    FallbackEmptyStats,
    /// Every contributor's lines added summed to zero.
    FallbackNoLines,
    /// The user did not appear among the contributors.
    FallbackUserNotFound,
}

/// What the ratio computation decides for one contributor document.
pub open spec fn spec_single_ratio(username: Seq<char>, cv: JsonV) -> RatioResult {
    match cv {
        JsonV::Arr(cs) => if cs.len() == 0 {
            RatioResult::FallbackEmptyStats
        } else {
            let scan = ratio_scan(username, cs);
            if scan.0 == 0 {
                RatioResult::FallbackNoLines
            } else if !scan.2 {
                RatioResult::FallbackUserNotFound
            } else {
                RatioResult::Calculated {
                    num: if scan.1 > scan.0 {
                        scan.0
                    } else {
                        scan.1
                    },
                    den: scan.0,
                }
            }
        },
        _ => RatioResult::FallbackNoStats,
    }
}

/// A repository's attribution weight as a fraction; fallbacks weigh `1/1`.
#[derive(Clone, Copy, Debug, PartialEq, Eq, Structural)]
pub struct Ratio {
    pub num: u64,
    pub den: u64,
}

/// The weight a ratio outcome assigns: full weight on any fallback.
pub open spec fn ratio_of(rr: RatioResult) -> Ratio {
    match rr {
        RatioResult::Calculated { num, den } => Ratio { num, den },
        _ => Ratio { num: 1, den: 1 },
    }
}

/// A well-formed weight: a positive denominator and a fraction at most one.
pub open spec fn ratio_wf(r: Ratio) -> bool {
    0 < r.den && r.num <= r.den
}

/// The ratio outcomes are well-formed weights.
pub proof fn lemma_ratio_wf(username: Seq<char>, cv: JsonV)
    ensures
        ratio_wf(ratio_of(spec_single_ratio(username, cv))),
{
}

impl StatsCollector {
    /// Computes one repository's ratio outcome from its contributor
    /// document, as `spec_single_ratio` says.
    pub fn calculate_single_ratio(&self, contributors: &Json) -> (r: RatioResult)
        ensures
            r == spec_single_ratio(self.cfg().username, contributors@),
    {
        let cs: &Vec<Json> = match contributors.as_array() {
            Some(v) => v,
            None => {
                return RatioResult::FallbackNoStats;
            },
        };
        if cs.len() == 0 {
            return RatioResult::FallbackEmptyStats;
        }
        let ghost cvs = jview_seq(cs@);
        proof {
            lemma_jview_seq(cs@);
            assert(cvs.take(0) =~= Seq::<JsonV>::empty());
        }
        let mut total_added: u64 = 0;
        let mut my_added: u64 = 0;
        let mut found_user = false;
        let mut i: usize = 0;
        while i < cs.len()
            invariant
                i <= cs@.len(),
                cvs == jview_seq(cs@),
                cvs.len() == cs@.len(),
                forall|j: int| 0 <= j < cs@.len() ==> cvs[j] == jview(cs@[j]),
                (total_added, my_added, found_user) == ratio_scan(
                    self.cfg().username,
                    cvs.take(i as int),
                ),
            decreases cs@.len() - i,
        {
            let c = &cs[i];
            let added = contributor_added_exec(c);
            proof {
                assert(cvs.take(i as int + 1).drop_last() =~= cvs.take(i as int));
                assert(cvs.take(i as int + 1).last() == cvs[i as int]);
            }
            total_added = sat_add_u64(total_added, added);
            if self.matches_user(c) {
                my_added = added;
                found_user = true;
            }
            i += 1;
        }
        proof {
            assert(cvs.take(cvs.len() as int) =~= cvs);
        }
        if total_added == 0 {
            return RatioResult::FallbackNoLines;
        }
        if !found_user {
            return RatioResult::FallbackUserNotFound;
        }
        let num = if my_added > total_added {
            total_added
        } else {
            my_added
        };
        RatioResult::Calculated { num, den: total_added }
    }

    /// Whether a contributor record's login is the target user.
    fn matches_user(&self, c: &Json) -> (r: bool)
        ensures
            r == is_user(self.cfg().username, c@),
    {
        match c.get2("author", "login") {
            Some(j) => match j.as_str() {
                Some(l) => str_eq_ignore_case(l, self.username.as_str()),
                None => false,
            },
            None => false,
        }
    }
}

/// One contributor's total lines added, executable.
fn contributor_added_exec(c: &Json) -> (r: u64)
    ensures
        r == contributor_added(c@),
{
    let ws: &Vec<Json> = match c.get("weeks") {
        Some(j) => match j.as_array() {
            Some(v) => v,
            None => {
                proof {
                    assert(contributor_weeks(c@) =~= Seq::<JsonV>::empty());
                }
                return 0;
            },
        },
        None => {
            proof {
                assert(contributor_weeks(c@) =~= Seq::<JsonV>::empty());
            }
            return 0;
        },
    };
    let ghost wvs = jview_seq(ws@);
    proof {
        lemma_jview_seq(ws@);
        assert(wvs.take(0) =~= Seq::<JsonV>::empty());
    }
    let mut total: u64 = 0;
    let mut i: usize = 0;
    while i < ws.len()
        invariant
            i <= ws@.len(),
            wvs == jview_seq(ws@),
            wvs.len() == ws@.len(),
            forall|j: int| 0 <= j < ws@.len() ==> wvs[j] == jview(ws@[j]),
            total == weeks_added(wvs.take(i as int)),
        decreases ws@.len() - i,
    {
        let a: u64 = match ws[i].get("a") {
            Some(j) => match j.as_u64() {
                Some(n) => n,
                None => 0,
            },
            None => 0,
        };
        proof {
            assert(wvs.take(i as int + 1).drop_last() =~= wvs.take(i as int));
            assert(wvs.take(i as int + 1).last() == wvs[i as int]);
        }
        total = sat_add_u64(total, a);
        i += 1;
    }
    proof {
        assert(wvs.take(wvs.len() as int) =~= wvs);
    }
    total
}



/// First weight recorded under `name`, if any.
pub open spec fn lookup_ratio(rs: Seq<(Seq<char>, Ratio)>, name: Seq<char>) -> Option<Ratio>
    decreases rs.len(),
{
    if rs.len() == 0 {
        None
    } else if rs[0].0 == name {
        Some(rs[0].1)
    } else {
        lookup_ratio(rs.drop_first(), name)
    }
}

/// The weight applied to a repository: its recorded weight, or full weight
/// where none was recorded.
pub open spec fn repo_ratio(rs: Seq<(Seq<char>, Ratio)>, name: Seq<char>) -> Ratio {
    match lookup_ratio(rs, name) {
        Some(r) => r,
        None => Ratio { num: 1, den: 1 },
    }
}

/// The view of the ratio table.
pub open spec fn ratios_view(s: Seq<(String, Ratio)>) -> Seq<(Seq<char>, Ratio)> {
    Seq::new(s.len(), |i: int| (s[i].0@, s[i].1))
}

/// A raw byte size scaled by a weight and rounded to the nearest integer.
pub open spec fn weighted64(size: u64, r: Ratio) -> u64 {
    ((size * r.num + r.den as int / 2) / r.den as int) as u64
}

/// A weight at most one cannot grow a size.
pub proof fn lemma_weighted_le(size: int, num: int, den: int)
    requires
        0 <= size,
        0 <= num <= den,
        0 < den,
    ensures
        0 <= (size * num + den / 2) / den <= size,
{
    lemma_mul_inequality(num, den, size);
    assert(size * num == num * size) by (nonlinear_arith);
    assert(size * den == den * size) by (nonlinear_arith);
    assert(size * num + den / 2 <= size * den + den - 1);
    lemma_div_is_ordered(0, size * num + den / 2, den);
    lemma_div_is_ordered(size * num + den / 2, size * den + den - 1, den);
    lemma_fundamental_div_mod_converse(size * den + den - 1, den, size, den - 1);
}

/// Scales a size by a weight, rounding to nearest (half rounds up).
pub fn weighted_size_exec(size: u64, r: Ratio) -> (w: u64)
    requires
        ratio_wf(r),
    ensures
        w == weighted64(size, r),
        w <= size,
{
    proof {
        lemma_weighted_le(size as int, r.num as int, r.den as int);
        assert((size as int) * (r.num as int) <= (u64::MAX as int) * (u64::MAX as int))
            by (nonlinear_arith)
            requires
                0 <= size as int <= u64::MAX as int,
                0 <= r.num as int <= u64::MAX as int,
        ;
    }
    let wide: u128 = ((size as u128) * (r.num as u128) + (r.den as u128) / 2) / (r.den as u128);
    wide as u64
}

/// One weighted observation folded into the language table: an existing
/// entry grows by the weighted size and one occurrence, keeping its color;
/// a new entry starts with them, taking this observation's color.
pub open spec fn langs_update(
    s: Seq<(Seq<char>, LangIV)>,
    name: Seq<char>,
    w: u64,
    color: Option<Seq<char>>,
) -> Seq<(Seq<char>, LangIV)>
    decreases s.len(),
{
    if s.len() == 0 {
        seq![(name, LangIV { size: w, occurrences: 1, color, percent_milli: 0 })]
    } else if s[0].0 == name {
        seq![
            (
                name,
                LangIV {
                    size: sat_add64(s[0].1.size, w),
                    occurrences: sat_add32(s[0].1.occurrences, 1),
                    color: s[0].1.color,
                    percent_milli: s[0].1.percent_milli,
                },
            ),
        ] + s.drop_first()
    } else {
        seq![s[0]] + langs_update(s.drop_first(), name, w, color)
    }
}

/// `langs_update` on a table whose first entry under `name` stands at `i`
/// updates exactly that entry.
pub proof fn lemma_langs_update_found(
    s: Seq<(Seq<char>, LangIV)>,
    name: Seq<char>,
    w: u64,
    color: Option<Seq<char>>,
    i: int,
)
    requires
        0 <= i < s.len(),
        s[i].0 == name,
        forall|j: int| 0 <= j < i ==> s[j].0 != name,
    ensures
        langs_update(s, name, w, color) == s.update(
            i,
            (
                name,
                LangIV {
                    size: sat_add64(s[i].1.size, w),
                    occurrences: sat_add32(s[i].1.occurrences, 1),
                    color: s[i].1.color,
                    percent_milli: s[i].1.percent_milli,
                },
            ),
        ),
    decreases i,
{
    let upd = (
        name,
        LangIV {
            size: sat_add64(s[i].1.size, w),
            occurrences: sat_add32(s[i].1.occurrences, 1),
            color: s[i].1.color,
            percent_milli: s[i].1.percent_milli,
        },
    );
    if i == 0 {
        assert(langs_update(s, name, w, color) =~= s.update(0, upd));
    } else {
        let t = s.drop_first();
        assert(t[i - 1] == s[i]);
        assert(forall|j: int| 0 <= j < i - 1 ==> t[j] == s[j + 1] && s[j + 1].0 != name);
        lemma_langs_update_found(t, name, w, color, i - 1);
        assert(langs_update(s, name, w, color) =~= s.update(i, upd));
    }
}

/// `langs_update` on a table without `name` appends a fresh entry.
pub proof fn lemma_langs_update_missing(
    s: Seq<(Seq<char>, LangIV)>,
    name: Seq<char>,
    w: u64,
    color: Option<Seq<char>>,
)
    requires
        forall|j: int| 0 <= j < s.len() ==> s[j].0 != name,
    ensures
        langs_update(s, name, w, color) == s.push(
            (name, LangIV { size: w, occurrences: 1, color, percent_milli: 0 }),
        ),
    decreases s.len(),
{
    if s.len() == 0 {
        assert(langs_update(s, name, w, color) =~= s.push(
            (name, LangIV { size: w, occurrences: 1, color, percent_milli: 0 }),
        ));
    } else {
        let t = s.drop_first();
        assert(forall|j: int| 0 <= j < t.len() ==> t[j] == s[j + 1] && s[j + 1].0 != name);
        lemma_langs_update_missing(t, name, w, color);
        assert(langs_update(s, name, w, color) =~= s.push(
            (name, LangIV { size: w, occurrences: 1, color, percent_milli: 0 }),
        ));
    }
}

/// One repository's raw languages folded into the table, in order, under
/// one weight.
pub open spec fn apply_repo_langs(
    langs: Seq<(Seq<char>, LangIV)>,
    entries: Seq<LangEdgeV>,
    r: Ratio,
) -> Seq<(Seq<char>, LangIV)>
    decreases entries.len(),
{
    if entries.len() == 0 {
        langs
    } else {
        let e = entries.last();
        langs_update(
            apply_repo_langs(langs, entries.drop_last(), r),
            e.name,
            weighted64(e.size, r),
            e.color,
        )
    }
}

/// Every repository's raw languages folded into the table, in order, each
/// under its own weight.
pub open spec fn apply_all(
    langs: Seq<(Seq<char>, LangIV)>,
    rl: Seq<(Seq<char>, Seq<LangEdgeV>)>,
    rs: Seq<(Seq<char>, Ratio)>,
) -> Seq<(Seq<char>, LangIV)>
    decreases rl.len(),
{
    if rl.len() == 0 {
        langs
    } else {
        let last = rl.last();
        apply_repo_langs(apply_all(langs, rl.drop_last(), rs), last.1, repo_ratio(rs, last.0))
    }
}

/// Folds one weighted observation into the language table, as
/// `langs_update` says.
fn update_language(
    languages: &mut Vec<(String, LanguageInfo)>,
    name: &str,
    w: u64,
    color: &Option<String>,
)
    ensures
        langs_view(final(languages)@) == langs_update(
            langs_view(old(languages)@),
            name@,
            w,
            match color {
                Some(c) => Some(c@),
                None => None,
            },
        ),
{
    let ghost s0 = langs_view(languages@);
    let ghost cv: Option<Seq<char>> = match color {
        Some(c) => Some(c@),
        None => None,
    };
    let mut i: usize = 0;
    while i < languages.len()
        invariant
            i <= languages@.len(),
            languages@ == old(languages)@,
            s0 == langs_view(languages@),
            cv == (match color {
                Some(c) => Some(c@),
                None => None,
            }),
            s0.len() == languages@.len(),
            forall|j: int| 0 <= j < i ==> s0[j].0 != name@,
        decreases languages@.len() - i,
    {
        if str_eq(languages[i].0.as_str(), name) {
            let key = languages[i].0.clone();
            let new_size = sat_add_u64(languages[i].1.size, w);
            let new_occ = sat_add_u32(languages[i].1.occurrences, 1);
            let kept_color: Option<String> = match &languages[i].1.color {
                Some(c) => Some(c.clone()),
                None => None,
            };
            let kept_pm = languages[i].1.percent_milli;
            languages.set(
                i,
                (
                    key,
                    LanguageInfo {
                        size: new_size,
                        occurrences: new_occ,
                        color: kept_color,
                        percent_milli: kept_pm,
                    },
                ),
            );
            proof {
                lemma_langs_update_found(s0, name@, w, cv, i as int);
                assert(langs_view(languages@) =~= langs_update(s0, name@, w, cv));
            }
            return ;
        }
        i += 1;
    }
    let owned: Option<String> = match color {
        Some(c) => Some(c.clone()),
        None => None,
    };
    languages.push(
        (
            String::from_str(name),
            LanguageInfo { size: w, occurrences: 1, color: owned, percent_milli: 0 },
        ),
    );
    proof {
        lemma_langs_update_missing(s0, name@, w, cv);
        assert(langs_view(languages@) =~= langs_update(s0, name@, w, cv));
    }
}

/// First recorded weight under `name` in the executable table.
fn get_ratio(ratios: &Vec<(String, Ratio)>, name: &str) -> (r: Ratio)
    ensures
        r == repo_ratio(ratios_view(ratios@), name@),
{
    let ghost rv = ratios_view(ratios@);
    proof {
        assert(rv.skip(0) =~= rv);
    }
    let mut i: usize = 0;
    while i < ratios.len()
        invariant
            i <= ratios@.len(),
            rv == ratios_view(ratios@),
            rv.len() == ratios@.len(),
            lookup_ratio(rv, name@) == lookup_ratio(rv.skip(i as int), name@),
        decreases ratios@.len() - i,
    {
        if str_eq(ratios[i].0.as_str(), name) {
            proof {
                assert(rv.skip(i as int)[0] == rv[i as int]);
                assert(lookup_ratio(rv.skip(i as int), name@) == Some(rv[i as int].1));
            }
            return ratios[i].1;
        }
        proof {
            assert(rv.skip(i as int)[0] == rv[i as int]);
            assert(rv.skip(i as int).drop_first() =~= rv.skip(i as int + 1));
        }
        i += 1;
    }
    proof {
        assert(rv.skip(i as int) =~= Seq::<(Seq<char>, Ratio)>::empty());
    }
    Ratio { num: 1, den: 1 }
}

impl StatsCollector {
    /// Folds every repository's raw languages into the report's language
    /// table, each scaled by its repository's weight, as `apply_all` says.
    /// Every other report field is untouched.
    pub fn apply_weighted_languages(
        repo_languages: &Vec<(String, RepoData)>,
        ratios: &Vec<(String, Ratio)>,
        stats: &mut Stats,
    )
        requires
            forall|i: int| 0 <= i < ratios@.len() ==> ratio_wf(#[trigger] ratios@[i].1),
        ensures
            langs_view(final(stats).languages@) == apply_all(
                langs_view(old(stats).languages@),
                repo_langs_view(repo_languages@),
                ratios_view(ratios@),
            ),
            final(stats).name == old(stats).name,
            final(stats).username == old(stats).username,
            final(stats).total_stars == old(stats).total_stars,
            final(stats).total_forks == old(stats).total_forks,
            final(stats).total_contributions == old(stats).total_contributions,
            final(stats).total_repos == old(stats).total_repos,
            final(stats).lines_added == old(stats).lines_added,
            final(stats).lines_deleted == old(stats).lines_deleted,
            final(stats).total_views == old(stats).total_views,
    {
        let ghost s0 = langs_view(old(stats).languages@);
        let ghost rlv = repo_langs_view(repo_languages@);
        let ghost rsv = ratios_view(ratios@);
        proof {
            assert(rlv.take(0) =~= Seq::<(Seq<char>, Seq<LangEdgeV>)>::empty());
        }
        let mut i: usize = 0;
        while i < repo_languages.len()
            invariant
                i <= repo_languages@.len(),
                rlv == repo_langs_view(repo_languages@),
                rlv.len() == repo_languages@.len(),
                rsv == ratios_view(ratios@),
                forall|k: int| 0 <= k < rsv.len() ==> ratio_wf(#[trigger] rsv[k].1),
                langs_view(stats.languages@) == apply_all(s0, rlv.take(i as int), rsv),
                stats.name == old(stats).name,
                stats.username == old(stats).username,
                stats.total_stars == old(stats).total_stars,
                stats.total_forks == old(stats).total_forks,
                stats.total_contributions == old(stats).total_contributions,
                stats.total_repos == old(stats).total_repos,
                stats.lines_added == old(stats).lines_added,
                stats.lines_deleted == old(stats).lines_deleted,
                stats.total_views == old(stats).total_views,
            decreases repo_languages@.len() - i,
        {
            let repo_name: &str = repo_languages[i].0.as_str();
            let ratio = get_ratio(ratios, repo_name);
            proof {
                if lookup_ratio(rsv, repo_name@) is Some {
                    lemma_lookup_ratio_wf(rsv, repo_name@);
                }
            }
            let ghost before = langs_view(stats.languages@);
            let ghost entries = rlv[i as int].1;
            proof {
                assert(entries.take(0) =~= Seq::<LangEdgeV>::empty());
            }
            let n = repo_languages[i].1.languages.len();
            let mut j: usize = 0;
            while j < n
                invariant
                    i < repo_languages@.len(),
                    n == repo_languages@[i as int].1.languages@.len(),
                    j <= n,
                    rlv == repo_langs_view(repo_languages@),
                    rlv.len() == repo_languages@.len(),
                    entries == rlv[i as int].1,
                    entries.len() == n,
                    ratio_wf(ratio),
                    ratio == repo_ratio(rsv, rlv[i as int].0),
                    repo_name@ == rlv[i as int].0,
                    langs_view(stats.languages@) == apply_repo_langs(
                        before,
                        entries.take(j as int),
                        ratio,
                    ),
                    stats.name == old(stats).name,
                    stats.username == old(stats).username,
                    stats.total_stars == old(stats).total_stars,
                    stats.total_forks == old(stats).total_forks,
                    stats.total_contributions == old(stats).total_contributions,
                    stats.total_repos == old(stats).total_repos,
                    stats.lines_added == old(stats).lines_added,
                    stats.lines_deleted == old(stats).lines_deleted,
                    stats.total_views == old(stats).total_views,
                decreases n - j,
            {
                let entry = &repo_languages[i].1.languages[j];
                let w = weighted_size_exec(entry.size, ratio);
                proof {
                    assert(entries[j as int] == repo_languages@[i as int].1.languages@[j as int]@);
                    assert(entries.take(j as int + 1).drop_last() =~= entries.take(j as int));
                    assert(entries.take(j as int + 1).last() == entries[j as int]);
                }
                update_language(&mut stats.languages, entry.name.as_str(), w, &entry.color);
                j += 1;
            }
            proof {
                assert(entries.take(n as int) =~= entries);
                assert(rlv.take(i as int + 1).drop_last() =~= rlv.take(i as int));
                assert(rlv.take(i as int + 1).last() == rlv[i as int]);
            }
            i += 1;
        }
        proof {
            assert(rlv.take(rlv.len() as int) =~= rlv);
        }
    }
}

/// A recorded weight found under `name` is well-formed when the table is.
pub proof fn lemma_lookup_ratio_wf(rs: Seq<(Seq<char>, Ratio)>, name: Seq<char>)
    requires
        forall|k: int| 0 <= k < rs.len() ==> ratio_wf(#[trigger] rs[k].1),
        lookup_ratio(rs, name) is Some,
    ensures
        ratio_wf(lookup_ratio(rs, name).unwrap()),
    decreases rs.len(),
{
    if rs.len() > 0 {
        if rs[0].0 == name {
        } else {
            assert(forall|k: int|
                0 <= k < rs.drop_first().len() ==> ratio_wf(#[trigger] rs.drop_first()[k].1));
            lemma_lookup_ratio_wf(rs.drop_first(), name);
        }
    }
}


/// The ratio outcome recorded for one repository: computed from its
/// contributor document, or `FallbackNoStats` where none was fetched.
pub open spec fn repo_ratio_result(
    username: Seq<char>,
    sm: Seq<(Seq<char>, JsonV)>,
    name: Seq<char>,
) -> RatioResult {
    match lookup(sm, name) {
        Some(cv) => spec_single_ratio(username, cv),
        None => RatioResult::FallbackNoStats,
    }
}

/// How many of `names` get a computed (not fallback) ratio.
pub open spec fn count_weighted(
    username: Seq<char>,
    sm: Seq<(Seq<char>, JsonV)>,
    names: Seq<Seq<char>>,
) -> int
    decreases names.len(),
{
    if names.len() == 0 {
        0
    } else {
        count_weighted(username, sm, names.drop_last()) + (
        if repo_ratio_result(username, sm, names.last()) is Calculated {
            1int
        } else {
            0int
        })
    }
}

/// The contributor document recorded under `name`, if any.
fn lookup_contrib<'a>(stats_map: &'a Vec<(String, Json)>, name: &str) -> (r: Option<&'a Json>)
    ensures
        match r {
            Some(v) => lookup(jview_entries(stats_map@), name@) == Some(v@),
            None => lookup(jview_entries(stats_map@), name@) is None,
        },
{
    let ghost es = jview_entries(stats_map@);
    proof {
        lemma_jview_entries(stats_map@);
        assert(es.skip(0) =~= es);
    }
    let mut i: usize = 0;
    while i < stats_map.len()
        invariant
            i <= stats_map@.len(),
            es == jview_entries(stats_map@),
            es.len() == stats_map@.len(),
            forall|j: int|
                0 <= j < stats_map@.len() ==> es[j] == (stats_map@[j].0@, jview(stats_map@[j].1)),
            lookup(es, name@) == lookup(es.skip(i as int), name@),
        decreases stats_map@.len() - i,
    {
        if str_eq(stats_map[i].0.as_str(), name) {
            proof {
                assert(es.skip(i as int)[0] == es[i as int]);
                assert(lookup(es.skip(i as int), name@) == Some(es[i as int].1));
            }
            return Some(&stats_map[i].1);
        }
        proof {
            assert(es.skip(i as int)[0] == es[i as int]);
            assert(es.skip(i as int).drop_first() =~= es.skip(i as int + 1));
        }
        i += 1;
    }
    proof {
        assert(es.skip(i as int) =~= Seq::<(Seq<char>, JsonV)>::empty());
    }
    None
}

impl StatsCollector {
    /// Records a weight for every discovered repository, in order, from its
    /// contributor document, and counts how many were computed and how many
    /// fell back to full weight.
    pub fn calculate_contribution_ratios(
        &self,
        contributor_stats: &Vec<(String, Json)>,
        all_repos: &Vec<String>,
    ) -> (r: (Vec<(String, Ratio)>, usize, usize))
        ensures
            ({
                let sm = jview_entries(contributor_stats@);
                let u = self.cfg().username;
                &&& r.0@.len() == all_repos@.len()
                &&& forall|i: int|
                    0 <= i < all_repos@.len() ==> (#[trigger] r.0@[i]).0@ == all_repos@[i]@
                        && r.0@[i].1 == ratio_of(repo_ratio_result(u, sm, all_repos@[i]@))
                        && ratio_wf(r.0@[i].1)
                &&& r.1 as int == count_weighted(u, sm, all_repos@.map_values(|s: String| s@))
                &&& r.1 as int + r.2 as int == all_repos@.len()
            }),
    {
        let ghost sm = jview_entries(contributor_stats@);
        let ghost u = self.cfg().username;
        let ghost names = all_repos@.map_values(|s: String| s@);
        let mut out: Vec<(String, Ratio)> = Vec::new();
        let mut weighted_count: usize = 0;
        let mut fallback_count: usize = 0;
        proof {
            assert(names.take(0) =~= Seq::<Seq<char>>::empty());
        }
        let mut i: usize = 0;
        while i < all_repos.len()
            invariant
                i <= all_repos@.len(),
                sm == jview_entries(contributor_stats@),
                u == self.cfg().username,
                names == all_repos@.map_values(|s: String| s@),
                names.len() == all_repos@.len(),
                out@.len() == i,
                forall|j: int|
                    0 <= j < i ==> (#[trigger] out@[j]).0@ == all_repos@[j]@ && out@[j].1
                        == ratio_of(repo_ratio_result(u, sm, all_repos@[j]@)) && ratio_wf(
                        out@[j].1,
                    ),
                weighted_count as int == count_weighted(u, sm, names.take(i as int)),
                weighted_count as int + fallback_count as int == i,
            decreases all_repos@.len() - i,
        {
            let repo_name: &str = all_repos[i].as_str();
            let result: RatioResult = match lookup_contrib(contributor_stats, repo_name) {
                Some(contributors) => self.calculate_single_ratio(contributors),
                None => RatioResult::FallbackNoStats,
            };
            proof {
                assert(names.take(i as int + 1).drop_last() =~= names.take(i as int));
                assert(names.take(i as int + 1).last() == names[i as int]);
                assert(names[i as int] == all_repos@[i as int]@);
            }
            let ratio = match result {
                RatioResult::Calculated { num, den } => {
                    weighted_count = weighted_count + 1;
                    Ratio { num, den }
                },
                _ => {
                    fallback_count = fallback_count + 1;
                    Ratio { num: 1, den: 1 }
                },
            };
            proof {
                lemma_ratio_wf(u, match lookup(sm, all_repos@[i as int]@) {
                    Some(cv) => cv,
                    None => JsonV::Null,
                });
                assert(ratio == ratio_of(repo_ratio_result(u, sm, all_repos@[i as int]@)));
                assert(ratio_wf(ratio));
            }
            out.push((String::from_str(repo_name), ratio));
            i += 1;
        }
        proof {
            assert(names.take(names.len() as int) =~= names);
        }
        (out, weighted_count, fallback_count)
    }
}

/// Lines added and deleted by one contributor, over all weeks.
fn contributor_lines_exec(c: &Json) -> (r: (u64, u64))
    ensures
        r.0 == weeks_added(contributor_weeks(c@)),
        r.1 == weeks_deleted(contributor_weeks(c@)),
{
    let ws: &Vec<Json> = match c.get("weeks") {
        Some(j) => match j.as_array() {
            Some(v) => v,
            None => {
                proof {
                    assert(contributor_weeks(c@) =~= Seq::<JsonV>::empty());
                }
                return (0, 0);
            },
        },
        None => {
            proof {
                assert(contributor_weeks(c@) =~= Seq::<JsonV>::empty());
            }
            return (0, 0);
        },
    };
    let ghost wvs = jview_seq(ws@);
    proof {
        lemma_jview_seq(ws@);
        assert(wvs.take(0) =~= Seq::<JsonV>::empty());
    }
    let mut added: u64 = 0;
    let mut deleted: u64 = 0;
    let mut i: usize = 0;
    while i < ws.len()
        invariant
            i <= ws@.len(),
            wvs == jview_seq(ws@),
            wvs.len() == ws@.len(),
            forall|j: int| 0 <= j < ws@.len() ==> wvs[j] == jview(ws@[j]),
            added == weeks_added(wvs.take(i as int)),
            deleted == weeks_deleted(wvs.take(i as int)),
        decreases ws@.len() - i,
    {
        let a: u64 = match ws[i].get("a") {
            Some(j) => match j.as_u64() {
                Some(n) => n,
                None => 0,
            },
            None => 0,
        };
        let d: u64 = match ws[i].get("d") {
            Some(j) => match j.as_u64() {
                Some(n) => n,
                None => 0,
            },
            None => 0,
        };
        proof {
            assert(wvs.take(i as int + 1).drop_last() =~= wvs.take(i as int));
            assert(wvs.take(i as int + 1).last() == wvs[i as int]);
        }
        added = sat_add_u64(added, a);
        deleted = sat_add_u64(deleted, d);
        i += 1;
    }
    proof {
        assert(wvs.take(wvs.len() as int) =~= wvs);
    }
    (added, deleted)
}

/// Lines added and deleted by the target user in one contributor document.
pub open spec fn user_lines(username: Seq<char>, cv: JsonV) -> (u64, u64)
    decreases cv,
{
    match cv {
        JsonV::Arr(cs) => user_lines_seq(username, cs),
        _ => (0, 0),
    }
}

/// Lines added and deleted by the target user over a contributor array.
pub open spec fn user_lines_seq(username: Seq<char>, cs: Seq<JsonV>) -> (u64, u64)
    decreases cs.len(),
{
    if cs.len() == 0 {
        (0, 0)
    } else {
        let prev = user_lines_seq(username, cs.drop_last());
        let c = cs.last();
        if is_user(username, c) {
            (
                sat_add64(prev.0, weeks_added(contributor_weeks(c))),
                sat_add64(prev.1, weeks_deleted(contributor_weeks(c))),
            )
        } else {
            prev
        }
    }
}

/// Lines added and deleted by the target user over every fetched document.
pub open spec fn all_user_lines(username: Seq<char>, sm: Seq<(Seq<char>, JsonV)>) -> (u64, u64)
    decreases sm.len(),
{
    if sm.len() == 0 {
        (0, 0)
    } else {
        let prev = all_user_lines(username, sm.drop_last());
        let here = user_lines(username, sm.last().1);
        (sat_add64(prev.0, here.0), sat_add64(prev.1, here.1))
    }
}

impl StatsCollector {
    /// Sums the target user's lines added and deleted across all weeks of
    /// all fetched contributor documents, as `all_user_lines` says.
    pub fn extract_lines_changed(&self, contributor_stats: &Vec<(String, Json)>) -> (r: (
        u64,
        u64,
    ))
        ensures
            r == all_user_lines(self.cfg().username, jview_entries(contributor_stats@)),
    {
        let ghost sm = jview_entries(contributor_stats@);
        let ghost u = self.cfg().username;
        proof {
            lemma_jview_entries(contributor_stats@);
            assert(sm.take(0) =~= Seq::<(Seq<char>, JsonV)>::empty());
        }
        let mut total_added: u64 = 0;
        let mut total_deleted: u64 = 0;
        let mut i: usize = 0;
        while i < contributor_stats.len()
            invariant
                i <= contributor_stats@.len(),
                u == self.cfg().username,
                sm == jview_entries(contributor_stats@),
                sm.len() == contributor_stats@.len(),
                forall|j: int|
                    0 <= j < contributor_stats@.len() ==> sm[j] == (
                        contributor_stats@[j].0@,
                        jview(contributor_stats@[j].1),
                    ),
                (total_added, total_deleted) == all_user_lines(u, sm.take(i as int)),
            decreases contributor_stats@.len() - i,
        {
            let doc = &contributor_stats[i].1;
            let ghost cv = sm[i as int].1;
            let mut here_added: u64 = 0;
            let mut here_deleted: u64 = 0;
            match doc.as_array() {
                Some(cs) => {
                    let ghost cvs = jview_seq(cs@);
                    proof {
                        lemma_jview_seq(cs@);
                        assert(cvs.take(0) =~= Seq::<JsonV>::empty());
                    }
                    let mut k: usize = 0;
                    while k < cs.len()
                        invariant
                            k <= cs@.len(),
                            u == self.cfg().username,
                            cvs == jview_seq(cs@),
                            cvs.len() == cs@.len(),
                            forall|j: int| 0 <= j < cs@.len() ==> cvs[j] == jview(cs@[j]),
                            (here_added, here_deleted) == user_lines_seq(u, cvs.take(k as int)),
                        decreases cs@.len() - k,
                    {
                        let c = &cs[k];
                        proof {
                            assert(cvs.take(k as int + 1).drop_last() =~= cvs.take(k as int));
                            assert(cvs.take(k as int + 1).last() == cvs[k as int]);
                        }
                        if self.matches_user(c) {
                            let lines = contributor_lines_exec(c);
                            here_added = sat_add_u64(here_added, lines.0);
                            here_deleted = sat_add_u64(here_deleted, lines.1);
                        }
                        k += 1;
                    }
                    proof {
                        assert(cvs.take(cvs.len() as int) =~= cvs);
                        assert(cv == JsonV::Arr(cvs));
                        assert((here_added, here_deleted) == user_lines(u, cv));
                    }
                },
                None => {
                    proof {
                        assert((here_added, here_deleted) == user_lines(u, cv));
                    }
                },
            }
            proof {
                assert(sm.take(i as int + 1).drop_last() =~= sm.take(i as int));
                assert(sm.take(i as int + 1).last() == sm[i as int]);
            }
            total_added = sat_add_u64(total_added, here_added);
            total_deleted = sat_add_u64(total_deleted, here_deleted);
            i += 1;
        }
        proof {
            assert(sm.take(sm.len() as int) =~= sm);
        }
        (total_added, total_deleted)
    }
}


/// The total weighted size over the language table.
pub open spec fn langs_total_size(s: Seq<(Seq<char>, LangIV)>) -> int
    decreases s.len(),
{
    if s.len() == 0 {
        0
    } else {
        langs_total_size(s.drop_last()) + s.last().1.size
    }
}

/// The sum of the recorded percentage shares over the language table.
pub open spec fn langs_percent_sum(s: Seq<(Seq<char>, LangIV)>) -> int
    decreases s.len(),
{
    if s.len() == 0 {
        0
    } else {
        langs_percent_sum(s.drop_last()) + s.last().1.percent_milli
    }
}

/// One language's share of `total`, in thousandths of a percent.
pub open spec fn percent_milli_of(size: u64, total: int) -> u64 {
    if total > 0 {
        ((size * 100000) / total) as u64
    } else {
        0
    }
}

/// The total size is never negative.
pub proof fn lemma_total_nonneg(s: Seq<(Seq<char>, LangIV)>)
    ensures
        langs_total_size(s) >= 0,
    decreases s.len(),
{
    if s.len() > 0 {
        lemma_total_nonneg(s.drop_last());
    }
}

/// A prefix's total size never exceeds the whole table's.
pub proof fn lemma_total_take_le(s: Seq<(Seq<char>, LangIV)>, i: int)
    requires
        0 <= i <= s.len(),
    ensures
        langs_total_size(s.take(i)) <= langs_total_size(s),
    decreases s.len() - i,
{
    if i == s.len() {
        assert(s.take(i) =~= s);
    } else {
        assert(s.take(i + 1).drop_last() =~= s.take(i));
        assert(s.take(i + 1).last() == s[i]);
        lemma_total_take_le(s, i + 1);
    }
}

/// No single entry outweighs the whole table.
pub proof fn lemma_size_le_total(s: Seq<(Seq<char>, LangIV)>, i: int)
    requires
        0 <= i < s.len(),
    ensures
        s[i].1.size <= langs_total_size(s),
    decreases s.len(),
{
    if i == s.len() - 1 {
        lemma_total_nonneg(s.drop_last());
    } else {
        lemma_size_le_total(s.drop_last(), i);
        assert(s.drop_last()[i] == s[i]);
    }
}

impl Stats {
    /// Derives each language's percentage share from the weighted sizes:
    /// `size / total * 100`, in thousandths of a percent, and zero for
    /// every entry when the total is zero.  Nothing else changes.
    pub fn finalize_percentages(&mut self)
        requires
            langs_total_size(langs_view(old(self).languages@)) <= u64::MAX,
        ensures
            ({
                let s0 = langs_view(old(self).languages@);
                let total = langs_total_size(s0);
                let s1 = langs_view(final(self).languages@);
                &&& s1.len() == s0.len()
                &&& forall|i: int|
                    0 <= i < s0.len() ==> (#[trigger] s1[i]).0 == s0[i].0 && s1[i].1.size
                        == s0[i].1.size && s1[i].1.occurrences == s0[i].1.occurrences
                        && s1[i].1.color == s0[i].1.color && s1[i].1.percent_milli
                        == percent_milli_of(s0[i].1.size, total)
            }),
            final(self).name == old(self).name,
            final(self).username == old(self).username,
            final(self).total_stars == old(self).total_stars,
            final(self).total_forks == old(self).total_forks,
            final(self).total_contributions == old(self).total_contributions,
            final(self).total_repos == old(self).total_repos,
            final(self).lines_added == old(self).lines_added,
            final(self).lines_deleted == old(self).lines_deleted,
            final(self).total_views == old(self).total_views,
    {
        let ghost s0 = langs_view(self.languages@);
        proof {
            assert(s0.take(0) =~= Seq::<(Seq<char>, LangIV)>::empty());
        }
        let n = self.languages.len();
        let mut total: u64 = 0;
        let mut i: usize = 0;
        while i < n
            invariant
                n == self.languages@.len(),
                i <= n,
                s0 == langs_view(self.languages@),
                s0.len() == n,
                langs_total_size(s0) <= u64::MAX,
                total as int == langs_total_size(s0.take(i as int)),
            decreases n - i,
        {
            proof {
                assert(s0.take(i as int + 1).drop_last() =~= s0.take(i as int));
                assert(s0.take(i as int + 1).last() == s0[i as int]);
                lemma_total_take_le(s0, i as int + 1);
                lemma_total_nonneg(s0.take(i as int + 1));
            }
            total = total + self.languages[i].1.size;
            i += 1;
        }
        proof {
            assert(s0.take(n as int) =~= s0);
        }
        let ghost t = langs_total_size(s0);
        let mut i: usize = 0;
        while i < n
            invariant
                n == self.languages@.len(),
                i <= n,
                s0.len() == n,
                total as int == t,
                t == langs_total_size(s0),
                forall|j: int|
                    i <= j < n ==> langs_view(self.languages@)[j] == s0[j],
                forall|j: int|
                    0 <= j < i ==> ({
                        let e = #[trigger] langs_view(self.languages@)[j];
                        &&& e.0 == s0[j].0
                        &&& e.1.size == s0[j].1.size
                        &&& e.1.occurrences == s0[j].1.occurrences
                        &&& e.1.color == s0[j].1.color
                        &&& e.1.percent_milli == percent_milli_of(s0[j].1.size, t)
                    }),
                self.name == old(self).name,
                self.username == old(self).username,
                self.total_stars == old(self).total_stars,
                self.total_forks == old(self).total_forks,
                self.total_contributions == old(self).total_contributions,
                self.total_repos == old(self).total_repos,
                self.lines_added == old(self).lines_added,
                self.lines_deleted == old(self).lines_deleted,
                self.total_views == old(self).total_views,
            decreases n - i,
        {
            let size = self.languages[i].1.size;
            let pm: u64 = if total > 0 {
                proof {
                    lemma_size_le_total(s0, i as int);
                    lemma_mul_inequality(size as int, t, 100000);
                    assert(size as int * 100000 == 100000 * size as int) by (nonlinear_arith);
                    assert(t * 100000 == 100000 * t) by (nonlinear_arith);
                    lemma_div_is_ordered(0, size as int * 100000, t);
                    lemma_div_is_ordered(size as int * 100000, t * 100000, t);
                    lemma_fundamental_div_mod_converse(t * 100000, t, 100000, 0);
                }
                (((size as u128) * 100000) / (total as u128)) as u64
            } else {
                0
            };
            let ghost prev = langs_view(self.languages@);
            let key = self.languages[i].0.clone();
            let occ = self.languages[i].1.occurrences;
            let color: Option<String> = match &self.languages[i].1.color {
                Some(c) => Some(c.clone()),
                None => None,
            };
            self.languages.set(
                i,
                (key, LanguageInfo { size, occurrences: occ, color, percent_milli: pm }),
            );
            proof {
                let cur = langs_view(self.languages@);
                assert forall|j: int| 0 <= j < n && j != i as int implies cur[j] == prev[j] by {
                }
                assert(cur[i as int].0 == s0[i as int].0);
                assert(cur[i as int].1.size == s0[i as int].1.size);
                assert(cur[i as int].1.occurrences == s0[i as int].1.occurrences);
                assert(cur[i as int].1.color == s0[i as int].1.color);
                assert(cur[i as int].1.percent_milli == percent_milli_of(s0[i as int].1.size, t));
                assert forall|j: int| i as int + 1 <= j < n implies cur[j] == s0[j] by {
                }
            }
            i += 1;
        }
    }
}

/// Law: once percentages are derived, their sum lands within one unit per
/// language below exactly one hundred percent whenever the total size is
/// positive; this is the integer reading of the shares summing to 100.
pub proof fn lemma_percent_sum_partial(s: Seq<(Seq<char>, LangIV)>, k: int)
    requires
        langs_total_size(s) > 0,
        forall|i: int|
            0 <= i < s.len() ==> (#[trigger] s[i].1).percent_milli as int == s[i].1.size * 100000
                / langs_total_size(s),
        0 <= k <= s.len(),
    ensures
        langs_percent_sum(s.take(k)) * langs_total_size(s) <= langs_total_size(s.take(k))
            * 100000,
        langs_total_size(s.take(k)) * 100000 <= (langs_percent_sum(s.take(k)) + k)
            * langs_total_size(s) - k,
    decreases k,
{
    let t = langs_total_size(s);
    if k == 0 {
        assert(s.take(0) =~= Seq::<(Seq<char>, LangIV)>::empty());
    } else {
        lemma_percent_sum_partial(s, k - 1);
        assert(s.take(k).drop_last() =~= s.take(k - 1));
        assert(s.take(k).last() == s[k - 1]);
        let a = s[k - 1].1.size as int;
        let p = s[k - 1].1.percent_milli as int;
        let sp = langs_percent_sum(s.take(k - 1));
        let st = langs_total_size(s.take(k - 1));
        assert(p == a * 100000 / t);
        lemma_fundamental_div_mod(a * 100000, t);
        assert(t * p <= a * 100000 <= t * (p + 1) - 1) by (nonlinear_arith)
            requires
                t > 0,
                p == a * 100000 / t,
                a * 100000 == t * (a * 100000 / t) + (a * 100000) % t,
                0 <= (a * 100000) % t < t,
        ;
        assert(langs_percent_sum(s.take(k)) == sp + p);
        assert(langs_total_size(s.take(k)) == st + a);
        assert((sp + p) * t == sp * t + p * t) by (nonlinear_arith);
        assert((st + a) * 100000 == st * 100000 + a * 100000) by (nonlinear_arith);
        assert(p * t == t * p) by (nonlinear_arith);
        assert((sp + p + k) * t == (sp + (k - 1)) * t + (p + 1) * t) by (nonlinear_arith);
        assert((p + 1) * t == t * (p + 1)) by (nonlinear_arith);
    }
}

/// Law: with a positive total, the derived shares sum to one hundred
/// percent, up to less than one unit of rounding loss per language.
pub proof fn lemma_percent_sum_bounds(s: Seq<(Seq<char>, LangIV)>)
    requires
        langs_total_size(s) > 0,
        forall|i: int|
            0 <= i < s.len() ==> (#[trigger] s[i].1).percent_milli as int == s[i].1.size * 100000
                / langs_total_size(s),
    ensures
        langs_percent_sum(s) <= 100000,
        langs_percent_sum(s) > 100000 - s.len(),
{
    let t = langs_total_size(s);
    let n = s.len() as int;
    lemma_percent_sum_partial(s, n);
    assert(s.take(n) =~= s);
    let p = langs_percent_sum(s);
    assert(p * t <= t * 100000) by (nonlinear_arith)
        requires
            p * t <= t * 100000,
    ;
    assert(p <= 100000) by (nonlinear_arith)
        requires
            t > 0,
            p * t <= t * 100000,
    ;
    assert(p > 100000 - n) by (nonlinear_arith)
        requires
            t > 0,
            n >= 1,
            t * 100000 <= (p + n) * t - n,
    ;
}


/// The view of a batch result list: each path with its fetched document,
/// or nothing where that path failed.
pub open spec fn results_view(s: Seq<(String, Option<Json>)>) -> Seq<(Seq<char>, Option<JsonV>)> {
    Seq::new(
        s.len(),
        |i: int|
            (
                s[i].0@,
                match s[i].1 {
                    Some(j) => Some(jview(j)),
                    None => None,
                },
            ),
    )
}

/// One traffic view record's count; absent or malformed counts as zero.
pub open spec fn view_count(v: JsonV) -> u64 {
    match ju64(v.get("count"@)) {
        Some(n) => n,
        None => 0,
    }
}

/// The daily counts of one traffic document, summed saturating.
pub open spec fn views_sum_seq(vs: Seq<JsonV>) -> u64
    decreases vs.len(),
{
    if vs.len() == 0 {
        0
    } else {
        sat_add64(views_sum_seq(vs.drop_last()), view_count(vs.last()))
    }
}

/// All daily counts of one traffic document; a document without a `views`
/// array counts as zero.
pub open spec fn views_of_doc(d: JsonV) -> u64 {
    match d.get("views"@) {
        Some(JsonV::Arr(vs)) => views_sum_seq(vs),
        _ => 0,
    }
}

/// The total view count over a batch of traffic documents; a failed path
/// counts as zero.
pub open spec fn spec_sum_views(rs: Seq<(Seq<char>, Option<JsonV>)>) -> u64
    decreases rs.len(),
{
    if rs.len() == 0 {
        0
    } else {
        sat_add64(spec_sum_views(rs.drop_last()), match rs.last().1 {
            Some(d) => views_of_doc(d),
            None => 0,
        })
    }
}

/// Sums every returned daily traffic count over a batch result, as
/// `spec_sum_views` says; failed paths contribute nothing.
pub fn sum_traffic_views(results: &Vec<(String, Option<Json>)>) -> (r: u64)
    ensures
        r == spec_sum_views(results_view(results@)),
{
    let ghost rv = results_view(results@);
    proof {
        assert(rv.take(0) =~= Seq::<(Seq<char>, Option<JsonV>)>::empty());
    }
    let mut total: u64 = 0;
    let mut i: usize = 0;
    while i < results.len()
        invariant
            i <= results@.len(),
            rv == results_view(results@),
            rv.len() == results@.len(),
            total == spec_sum_views(rv.take(i as int)),
        decreases results@.len() - i,
    {
        let mut here: u64 = 0;
        match &results[i].1 {
            Some(doc) => {
                let ghost dv = rv[i as int].1.unwrap();
                match doc.get("views") {
                    Some(views_j) => match views_j.as_array() {
                        Some(vs) => {
                            let ghost vvs = jview_seq(vs@);
                            proof {
                                lemma_jview_seq(vs@);
                                assert(vvs.take(0) =~= Seq::<JsonV>::empty());
                            }
                            let mut k: usize = 0;
                            while k < vs.len()
                                invariant
                                    k <= vs@.len(),
                                    vvs == jview_seq(vs@),
                                    vvs.len() == vs@.len(),
                                    forall|j: int|
                                        0 <= j < vs@.len() ==> vvs[j] == jview(vs@[j]),
                                    here == views_sum_seq(vvs.take(k as int)),
                                decreases vs@.len() - k,
                            {
                                let c: u64 = match vs[k].get("count") {
                                    Some(j) => match j.as_u64() {
                                        Some(n) => n,
                                        None => 0,
                                    },
                                    None => 0,
                                };
                                proof {
                                    assert(vvs.take(k as int + 1).drop_last() =~= vvs.take(
                                        k as int,
                                    ));
                                    assert(vvs.take(k as int + 1).last() == vvs[k as int]);
                                }
                                here = sat_add_u64(here, c);
                                k += 1;
                            }
                            proof {
                                assert(vvs.take(vvs.len() as int) =~= vvs);
                                assert(here == views_of_doc(dv));
                            }
                        },
                        None => {
                            proof {
                                assert(here == views_of_doc(dv));
                            }
                        },
                    },
                    None => {
                        proof {
                            assert(here == views_of_doc(dv));
                        }
                    },
                }
            },
            None => {},
        }
        proof {
            assert(rv.take(i as int + 1).drop_last() =~= rv.take(i as int));
            assert(rv.take(i as int + 1).last() == rv[i as int]);
        }
        total = sat_add_u64(total, here);
        i += 1;
    }
    proof {
        assert(rv.take(rv.len() as int) =~= rv);
    }
    total
}

/// Builds one REST path per repository by joining the three parts.
fn join_path(prefix: &str, name: &str, suffix: &str) -> (r: String)
    ensures
        r@ == prefix@ + name@ + suffix@,
{
    let mut s = String::from_str(prefix);
    s.append(name);
    s.append(suffix);
    s
}

/// The traffic-views REST path of each repository, in order.
pub fn traffic_paths(repos: &Vec<String>) -> (r: Vec<String>)
    ensures
        r@.len() == repos@.len(),
        forall|i: int|
            0 <= i < repos@.len() ==> (#[trigger] r@[i])@ == "/repos/"@ + repos@[i]@
                + "/traffic/views"@,
{
    let mut out: Vec<String> = Vec::new();
    let mut i: usize = 0;
    while i < repos.len()
        invariant
            i <= repos@.len(),
            out@.len() == i,
            forall|j: int|
                0 <= j < i ==> (#[trigger] out@[j])@ == "/repos/"@ + repos@[j]@
                    + "/traffic/views"@,
        decreases repos@.len() - i,
    {
        out.push(join_path("/repos/", repos[i].as_str(), "/traffic/views"));
        i += 1;
    }
    out
}

/// The contributor-stats REST path of each repository, in order.
pub fn contributor_stats_paths(repos: &Vec<String>) -> (r: Vec<String>)
    ensures
        r@.len() == repos@.len(),
        forall|i: int|
            0 <= i < repos@.len() ==> (#[trigger] r@[i])@ == "/repos/"@ + repos@[i]@
                + "/stats/contributors"@,
{
    let mut out: Vec<String> = Vec::new();
    let mut i: usize = 0;
    while i < repos.len()
        invariant
            i <= repos@.len(),
            out@.len() == i,
            forall|j: int|
                0 <= j < i ==> (#[trigger] out@[j])@ == "/repos/"@ + repos@[j]@
                    + "/stats/contributors"@,
        decreases repos@.len() - i,
    {
        out.push(join_path("/repos/", repos[i].as_str(), "/stats/contributors"));
        i += 1;
    }
    out
}

/// The repository name a contributor-stats path answers for: its second
/// and third `/`-separated segments, joined; nothing where the path has
/// fewer than four segments.
pub open spec fn path_repo_name(path: Seq<char>) -> Option<Seq<char>> {
    let parts = split_slash(path);
    if parts.len() >= 4 {
        Some(parts[2] + "/"@ + parts[3])
    } else {
        None
    }
}

/// The contributor documents of a batch result, indexed by the repository
/// each path names, in order; failed paths and malformed paths are left
/// out.
pub open spec fn spec_index_results(rs: Seq<(Seq<char>, Option<JsonV>)>) -> Seq<
    (Seq<char>, JsonV),
>
    decreases rs.len(),
{
    if rs.len() == 0 {
        Seq::empty()
    } else {
        let front = spec_index_results(rs.drop_last());
        match rs.last().1 {
            Some(d) => match path_repo_name(rs.last().0) {
                Some(name) => front.push((name, d)),
                None => front,
            },
            None => front,
        }
    }
}

/// Indexes a batch of contributor documents by repository name, as
/// `spec_index_results` says.
pub fn index_contributor_results(results: &Vec<(String, Option<Json>)>) -> (r: Vec<
    (String, Json),
>)
    ensures
        jview_entries(r@) == spec_index_results(results_view(results@)),
{
    let ghost rv = results_view(results@);
    proof {
        assert(rv.take(0) =~= Seq::<(Seq<char>, Option<JsonV>)>::empty());
    }
    let mut out: Vec<(String, Json)> = Vec::new();
    proof {
        lemma_jview_entries(out@);
        assert(jview_entries(out@) =~= spec_index_results(rv.take(0)));
    }
    let mut i: usize = 0;
    while i < results.len()
        invariant
            i <= results@.len(),
            rv == results_view(results@),
            rv.len() == results@.len(),
            jview_entries(out@) == spec_index_results(rv.take(i as int)),
        decreases results@.len() - i,
    {
        let ghost pre = jview_entries(out@);
        proof {
            lemma_jview_entries(out@);
            assert(rv.take(i as int + 1).drop_last() =~= rv.take(i as int));
            assert(rv.take(i as int + 1).last() == rv[i as int]);
        }
        match &results[i].1 {
            Some(doc) => {
                let segs = segments(results[i].0.as_str());
                let ghost parts = split_slash(rv[i as int].0);
                proof {
                    assert(segs@.map_values(|x: String| x@) == parts);
                    assert(segs@.len() == parts.len());
                }
                if segs.len() >= 4 {
                    let mut name = segs[2].clone();
                    name.append("/");
                    name.append(segs[3].as_str());
                    proof {
                        assert(segs@[2]@ == parts[2]);
                        assert(segs@[3]@ == parts[3]);
                        assert(name@ == parts[2] + "/"@ + parts[3]);
                    }
                    let owned = doc.clone();
                    out.push((name, owned));
                    proof {
                        lemma_jview_entries(out@);
                        assert(jview_entries(out@) =~= spec_index_results(rv.take(i as int + 1)));
                    }
                } else {
                    proof {
                        assert(jview_entries(out@) == spec_index_results(rv.take(i as int + 1)));
                    }
                }
            },
            None => {
                proof {
                    assert(jview_entries(out@) == spec_index_results(rv.take(i as int + 1)));
                }
            },
        }
        i += 1;
    }
    proof {
        assert(rv.take(rv.len() as int) =~= rv);
    }
    out
}


/// The discovery state folded over a whole node list, in order.
pub open spec fn spec_process_nodes(cfg: CfgV, nodes: Seq<JsonV>, st: P1StateV) -> P1StateV
    decreases nodes.len(),
{
    if nodes.len() == 0 {
        st
    } else {
        spec_process_repo(cfg, nodes.last(), spec_process_nodes(cfg, nodes.drop_last(), st))
    }
}

/// The `data.viewer` object of a response, or `null` where it is missing.
pub open spec fn viewer_of(resp: JsonV) -> JsonV {
    match opt_get(resp.get("data"@), "viewer"@) {
        Some(v) => v,
        None => JsonV::Null,
    }
}

/// The nodes of one listing under the viewer, or empty where the listing
/// is not an object or carries no node array.
pub open spec fn listing_nodes(viewer: JsonV, key: Seq<char>) -> Seq<JsonV> {
    match viewer.get(key) {
        Some(JsonV::Obj(es)) => match lookup(es, "nodes"@) {
            Some(JsonV::Arr(a)) => a,
            _ => Seq::empty(),
        },
        _ => Seq::empty(),
    }
}

/// The continuation cursor a listing's page leaves behind: the end cursor
/// while more pages exist, nothing when the listing is exhausted, and the
/// previous cursor where the page carries no page info at all.
pub open spec fn next_cursor(
    viewer: JsonV,
    key: Seq<char>,
    prev: Option<Seq<char>>,
) -> Option<Seq<char>> {
    match viewer.get(key) {
        Some(JsonV::Obj(es)) => match lookup(es, "pageInfo"@) {
            Some(JsonV::Obj(pies)) => if lookup(pies, "hasNextPage"@) == Some(
                JsonV::Bool(true),
            ) {
                jstr(lookup(pies, "endCursor"@))
            } else {
                None
            },
            _ => prev,
        },
        _ => prev,
    }
}

/// The display name a page reports: the viewer's name, else its login,
/// else "Unknown".
pub open spec fn page_name(viewer: JsonV) -> Seq<char> {
    match jstr(viewer.get("name"@)) {
        Some(s) => s,
        None => match jstr(viewer.get("login"@)) {
            Some(s) => s,
            None => "Unknown"@,
        },
    }
}

/// The view of an optional owned cursor.
pub open spec fn ostr(o: Option<String>) -> Option<Seq<char>> {
    match o {
        Some(s) => Some(s@),
        None => None,
    }
}

impl StatsCollector {
    /// Folds one listing of a page into the discovery state and answers
    /// the listing's next continuation cursor.
    fn process_listing(
        &self,
        viewer: &Json,
        key: &str,
        prev_cursor: Option<String>,
        repos: &mut Vec<String>,
        repo_languages: &mut Vec<(String, RepoData)>,
        stats: &mut Stats,
    ) -> (r: Option<String>)
        ensures
            ({
                let st0 = P1StateV {
                    repos: old(repos)@.map_values(|s: String| s@),
                    repo_langs: repo_langs_view(old(repo_languages)@),
                    stars: old(stats).total_stars,
                    forks: old(stats).total_forks,
                };
                let st1 = spec_process_nodes(self.cfg(), listing_nodes(viewer@, key@), st0);
                &&& final(repos)@.map_values(|s: String| s@) == st1.repos
                &&& repo_langs_view(final(repo_languages)@) == st1.repo_langs
                &&& final(stats).total_stars == st1.stars
                &&& final(stats).total_forks == st1.forks
            }),
            ostr(r) == next_cursor(viewer@, key@, ostr(prev_cursor)),
            final(stats).name == old(stats).name,
            final(stats).username == old(stats).username,
            final(stats).total_contributions == old(stats).total_contributions,
            final(stats).total_repos == old(stats).total_repos,
            final(stats).lines_added == old(stats).lines_added,
            final(stats).lines_deleted == old(stats).lines_deleted,
            final(stats).total_views == old(stats).total_views,
            final(stats).languages == old(stats).languages,
    {
        let ghost st0 = P1StateV {
            repos: repos@.map_values(|s: String| s@),
            repo_langs: repo_langs_view(repo_languages@),
            stars: stats.total_stars,
            forks: stats.total_forks,
        };
        let listing: &Json = match viewer.get(key) {
            Some(l) => l,
            None => {
                return prev_cursor;
            },
        };
        match listing.as_object() {
            Some(_) => {},
            None => {
                return prev_cursor;
            },
        }
        match listing.get("nodes") {
            Some(nodes_j) => match nodes_j.as_array() {
                Some(nodes) => {
                    let ghost nvs = jview_seq(nodes@);
                    proof {
                        lemma_jview_seq(nodes@);
                        assert(nvs.take(0) =~= Seq::<JsonV>::empty());
                        assert(nvs == listing_nodes(viewer@, key@));
                    }
                    let mut i: usize = 0;
                    while i < nodes.len()
                        invariant
                            i <= nodes@.len(),
                            nvs == jview_seq(nodes@),
                            nvs.len() == nodes@.len(),
                            forall|j: int| 0 <= j < nodes@.len() ==> nvs[j] == jview(nodes@[j]),
                            ({
                                let st = P1StateV {
                                    repos: repos@.map_values(|s: String| s@),
                                    repo_langs: repo_langs_view(repo_languages@),
                                    stars: stats.total_stars,
                                    forks: stats.total_forks,
                                };
                                st == spec_process_nodes(self.cfg(), nvs.take(i as int), st0)
                            }),
                            stats.name == old(stats).name,
                            stats.username == old(stats).username,
                            stats.total_contributions == old(stats).total_contributions,
                            stats.total_repos == old(stats).total_repos,
                            stats.lines_added == old(stats).lines_added,
                            stats.lines_deleted == old(stats).lines_deleted,
                            stats.total_views == old(stats).total_views,
                            stats.languages == old(stats).languages,
                        decreases nodes@.len() - i,
                    {
                        proof {
                            assert(nvs.take(i as int + 1).drop_last() =~= nvs.take(i as int));
                            assert(nvs.take(i as int + 1).last() == nvs[i as int]);
                        }
                        self.process_repo(&nodes[i], repos, repo_languages, stats);
                        i += 1;
                    }
                    proof {
                        assert(nvs.take(nvs.len() as int) =~= nvs);
                    }
                },
                None => {},
            },
            None => {},
        }
        match listing.get("pageInfo") {
            Some(pi) => match pi.as_object() {
                Some(_) => {
                    let has_next = match pi.get("hasNextPage") {
                        Some(b) => match b.as_bool() {
                            Some(v) => v,
                            None => false,
                        },
                        None => false,
                    };
                    if has_next {
                        match pi.get("endCursor") {
                            Some(c) => match c.as_str() {
                                Some(s) => Some(String::from_str(s)),
                                None => None,
                            },
                            None => None,
                        }
                    } else {
                        None
                    }
                },
                None => prev_cursor,
            },
            None => prev_cursor,
        }
    }

    /// Folds one page of the combined repository listings into the
    /// discovery state: the owned listing always, the contributed-to
    /// listing unless forks are excluded; fills the report's display name
    /// from the first page that sets it; and answers both listings' next
    /// cursors.
    pub fn collect_repos_page(
        &self,
        response: &Json,
        owned_cursor: Option<String>,
        contrib_cursor: Option<String>,
        repos: &mut Vec<String>,
        repo_languages: &mut Vec<(String, RepoData)>,
        stats: &mut Stats,
    ) -> (r: (Option<String>, Option<String>))
        ensures
            ({
                let v = viewer_of(response@);
                let st0 = P1StateV {
                    repos: old(repos)@.map_values(|s: String| s@),
                    repo_langs: repo_langs_view(old(repo_languages)@),
                    stars: old(stats).total_stars,
                    forks: old(stats).total_forks,
                };
                let st1 = spec_process_nodes(self.cfg(), listing_nodes(v, "repositories"@), st0);
                let st2 = if !self.cfg().exclude_forked {
                    spec_process_nodes(
                        self.cfg(),
                        listing_nodes(v, "repositoriesContributedTo"@),
                        st1,
                    )
                } else {
                    st1
                };
                &&& final(repos)@.map_values(|s: String| s@) == st2.repos
                &&& repo_langs_view(final(repo_languages)@) == st2.repo_langs
                &&& final(stats).total_stars == st2.stars
                &&& final(stats).total_forks == st2.forks
                &&& final(stats).name@ == if old(stats).name@.len() == 0 {
                    page_name(v)
                } else {
                    old(stats).name@
                }
                &&& ostr(r.0) == next_cursor(v, "repositories"@, ostr(owned_cursor))
                &&& ostr(r.1) == if !self.cfg().exclude_forked {
                    next_cursor(v, "repositoriesContributedTo"@, ostr(contrib_cursor))
                } else {
                    ostr(contrib_cursor)
                }
            }),
            final(stats).username == old(stats).username,
            final(stats).total_contributions == old(stats).total_contributions,
            final(stats).total_repos == old(stats).total_repos,
            final(stats).lines_added == old(stats).lines_added,
            final(stats).lines_deleted == old(stats).lines_deleted,
            final(stats).total_views == old(stats).total_views,
            final(stats).languages == old(stats).languages,
    {
        let null_json = Json::Null;
        let viewer: &Json = match response.get2("data", "viewer") {
            Some(v) => v,
            None => &null_json,
        };
        proof {
            assert(viewer@ == viewer_of(response@));
        }
        if stats.name.as_str().is_empty() {
            let name: String = match viewer.get("name") {
                Some(j) => match j.as_str() {
                    Some(s) => String::from_str(s),
                    None => match viewer.get("login") {
                        Some(j2) => match j2.as_str() {
                            Some(s) => String::from_str(s),
                            None => String::from_str("Unknown"),
                        },
                        None => String::from_str("Unknown"),
                    },
                },
                None => match viewer.get("login") {
                    Some(j2) => match j2.as_str() {
                        Some(s) => String::from_str(s),
                        None => String::from_str("Unknown"),
                    },
                    None => String::from_str("Unknown"),
                },
            };
            stats.name = name;
        }
        let next_owned = self.process_listing(
            viewer,
            "repositories",
            owned_cursor,
            repos,
            repo_languages,
            stats,
        );
        let next_contrib = if !self.exclude_forked {
            self.process_listing(
                viewer,
                "repositoriesContributedTo",
                contrib_cursor,
                repos,
                repo_languages,
                stats,
            )
        } else {
            contrib_cursor
        };
        (next_owned, next_contrib)
    }
}

/// The GraphQL rendering of an optional continuation cursor: `null`, or
/// the cursor quoted.
pub open spec fn cursor_lit(c: Option<Seq<char>>) -> Seq<char> {
    match c {
        None => "null"@,
        Some(s) => "\""@ + s + "\""@,
    }
}

/// The combined two-listing repository query for one page.
pub open spec fn spec_repos_query(oc: Option<Seq<char>>, cc: Option<Seq<char>>) -> Seq<char> {
    "{ viewer { login, name, repositories(first: 100, orderBy: {field: UPDATED_AT, direction: DESC}, isFork: false, after: "@
        + cursor_lit(oc)
        + ") { pageInfo { hasNextPage endCursor } nodes { nameWithOwner stargazers { totalCount } forkCount languages(first: 10, orderBy: {field: SIZE, direction: DESC}) { edges { size node { name color } } } } } repositoriesContributedTo(first: 100, includeUserRepositories: false, orderBy: {field: UPDATED_AT, direction: DESC}, contributionTypes: [COMMIT, PULL_REQUEST, REPOSITORY, PULL_REQUEST_REVIEW], after: "@
        + cursor_lit(cc)
        + ") { pageInfo { hasNextPage endCursor } nodes { nameWithOwner stargazers { totalCount } forkCount languages(first: 10, orderBy: {field: SIZE, direction: DESC}) { edges { size node { name color } } } } } } }"@
}

impl StatsCollector {
    /// Builds the page query for the two listings, with each listing's
    /// continuation cursor in place, as `spec_repos_query` says.
    pub fn build_repos_query(owned_cursor: Option<&str>, contrib_cursor: Option<&str>) -> (r:
        String)
        ensures
            r@ == spec_repos_query(
                match owned_cursor {
                    Some(c) => Some(c@),
                    None => None,
                },
                match contrib_cursor {
                    Some(c) => Some(c@),
                    None => None,
                },
            ),
    {
        let mut s = String::from_str(
            "{ viewer { login, name, repositories(first: 100, orderBy: {field: UPDATED_AT, direction: DESC}, isFork: false, after: ",
        );
        match owned_cursor {
            Some(c) => {
                s.append("\"");
                s.append(c);
                s.append("\"");
            },
            None => {
                s.append("null");
            },
        }
        s.append(
            ") { pageInfo { hasNextPage endCursor } nodes { nameWithOwner stargazers { totalCount } forkCount languages(first: 10, orderBy: {field: SIZE, direction: DESC}) { edges { size node { name color } } } } } repositoriesContributedTo(first: 100, includeUserRepositories: false, orderBy: {field: UPDATED_AT, direction: DESC}, contributionTypes: [COMMIT, PULL_REQUEST, REPOSITORY, PULL_REQUEST_REVIEW], after: ",
        );
        match contrib_cursor {
            Some(c) => {
                s.append("\"");
                s.append(c);
                s.append("\"");
            },
            None => {
                s.append("null");
            },
        }
        s.append(
            ") { pageInfo { hasNextPage endCursor } nodes { nameWithOwner stargazers { totalCount } forkCount languages(first: 10, orderBy: {field: SIZE, direction: DESC}) { edges { size node { name color } } } } } } }",
        );
        s
    }

    /// The query listing every year with recorded contribution activity.
    pub fn contribution_years_query() -> (r: &'static str) {
        "query { viewer { contributionsCollection { contributionYears } } }"
    }
}

/// The years listing of a contribution-years response, if it is there.
pub open spec fn years_listing(resp: JsonV) -> Option<Seq<JsonV>> {
    match opt_get(
        opt_get(opt_get(resp.get("data"@), "viewer"@), "contributionsCollection"@),
        "contributionYears"@,
    ) {
        Some(JsonV::Arr(a)) => Some(a),
        _ => None,
    }
}

/// The years that read as integers, in order.
pub open spec fn years_of(a: Seq<JsonV>) -> Seq<i64>
    decreases a.len(),
{
    if a.len() == 0 {
        Seq::empty()
    } else {
        let front = years_of(a.drop_last());
        match a.last().as_i64() {
            Some(y) => front.push(y),
            None => front,
        }
    }
}

impl StatsCollector {
    /// Reads the contribution years out of the years response; a response
    /// without the listing is the one hard failure of this phase.
    pub fn parse_contribution_years(response: &Json) -> (r: Result<Vec<i64>, ApiError>)
        ensures
            match years_listing(response@) {
                Some(a) => r matches Ok(v) && v@ == years_of(a),
                None => r matches Err(e) && e@ == ApiErrorV::MissingContributionYears,
            },
    {
        let arr: &Vec<Json> = match response.get2("data", "viewer") {
            Some(v) => match v.get("contributionsCollection") {
                Some(cc) => match cc.get("contributionYears") {
                    Some(y) => match y.as_array() {
                        Some(a) => a,
                        None => {
                            return Err(ApiError::MissingContributionYears);
                        },
                    },
                    None => {
                        return Err(ApiError::MissingContributionYears);
                    },
                },
                None => {
                    return Err(ApiError::MissingContributionYears);
                },
            },
            None => {
                return Err(ApiError::MissingContributionYears);
            },
        };
        let ghost avs = jview_seq(arr@);
        proof {
            lemma_jview_seq(arr@);
            assert(avs.take(0) =~= Seq::<JsonV>::empty());
        }
        let mut out: Vec<i64> = Vec::new();
        let mut i: usize = 0;
        while i < arr.len()
            invariant
                i <= arr@.len(),
                avs == jview_seq(arr@),
                avs.len() == arr@.len(),
                forall|j: int| 0 <= j < arr@.len() ==> avs[j] == jview(arr@[j]),
                out@ == years_of(avs.take(i as int)),
            decreases arr@.len() - i,
        {
            proof {
                assert(avs.take(i as int + 1).drop_last() =~= avs.take(i as int));
                assert(avs.take(i as int + 1).last() == avs[i as int]);
            }
            match arr[i].as_i64() {
                Some(y) => {
                    out.push(y);
                },
                None => {},
            }
            i += 1;
        }
        proof {
            assert(avs.take(avs.len() as int) =~= avs);
        }
        Ok(out)
    }
}

/// The aliased per-year fragment of the combined contributions query.
pub open spec fn year_fragment(y: i64) -> Seq<char> {
    "year"@ + int_dec_str(y as int) + ": contributionsCollection(from: \""@ + int_dec_str(
        y as int,
    ) + "-01-01T00:00:00Z\", to: \""@ + int_dec_str(y as int + 1)
        + "-01-01T00:00:00Z\") { contributionCalendar { totalContributions } } "@
}

/// The fragments of every year, in order.
pub open spec fn year_fragments(ys: Seq<i64>) -> Seq<char>
    decreases ys.len(),
{
    if ys.len() == 0 {
        Seq::empty()
    } else {
        year_fragments(ys.drop_last()) + year_fragment(ys.last())
    }
}

/// The combined query asking each year's total contribution count.
pub open spec fn spec_years_query(ys: Seq<i64>) -> Seq<char> {
    "query { viewer { "@ + year_fragments(ys) + "} }"@
}

impl StatsCollector {
    /// Builds one combined query over all contribution years, as
    /// `spec_years_query` says.
    pub fn build_years_query(years: &Vec<i64>) -> (r: String)
        requires
            forall|i: int| 0 <= i < years@.len() ==> #[trigger] years@[i] < i64::MAX,
        ensures
            r@ == spec_years_query(years@),
    {
        let mut body = String::new();
        proof {
            assert(years@.take(0) =~= Seq::<i64>::empty());
            assert(body@ =~= year_fragments(years@.take(0)));
        }
        let mut i: usize = 0;
        while i < years.len()
            invariant
                i <= years@.len(),
                forall|j: int| 0 <= j < years@.len() ==> #[trigger] years@[j] < i64::MAX,
                body@ == year_fragments(years@.take(i as int)),
            decreases years@.len() - i,
        {
            let y = years[i];
            proof {
                assert(years@.take(i as int + 1).drop_last() =~= years@.take(i as int));
                assert(years@.take(i as int + 1).last() == years@[i as int]);
            }
            body.append("year");
            let ys = i64_to_string(y);
            body.append(ys.as_str());
            body.append(": contributionsCollection(from: \"");
            body.append(ys.as_str());
            body.append("-01-01T00:00:00Z\", to: \"");
            let ys1 = i64_to_string(y + 1);
            body.append(ys1.as_str());
            body.append("-01-01T00:00:00Z\") { contributionCalendar { totalContributions } } ");
            i += 1;
        }
        proof {
            assert(years@.take(years@.len() as int) =~= years@);
        }
        let mut q = String::from_str("query { viewer { ");
        q.append(body.as_str());
        q.append("} }");
        q
    }
}

/// One aliased year's total in the combined response; absent or malformed
/// counts as zero.
pub open spec fn year_total(v: JsonV) -> u64 {
    match ju64(opt_get(v.get("contributionCalendar"@), "totalContributions"@)) {
        Some(n) => n,
        None => 0,
    }
}

/// The totals of every aliased year under the viewer, summed saturating.
pub open spec fn spec_sum_years(es: Seq<(Seq<char>, JsonV)>) -> u64
    decreases es.len(),
{
    if es.len() == 0 {
        0
    } else {
        sat_add64(spec_sum_years(es.drop_last()), year_total(es.last().1))
    }
}

impl StatsCollector {
    /// Sums every aliased year's total contribution count in the combined
    /// response, as `spec_sum_years` says; a response whose viewer is not
    /// an object counts as zero.
    pub fn sum_yearly_contributions(response: &Json) -> (r: u64)
        ensures
            r == match viewer_of(response@) {
                JsonV::Obj(es) => spec_sum_years(es),
                _ => 0,
            },
    {
        let viewer: &Json = match response.get2("data", "viewer") {
            Some(v) => v,
            None => {
                return 0;
            },
        };
        let entries: &Vec<(String, Json)> = match viewer.as_object() {
            Some(es) => es,
            None => {
                return 0;
            },
        };
        let ghost es = jview_entries(entries@);
        proof {
            lemma_jview_entries(entries@);
            assert(es.take(0) =~= Seq::<(Seq<char>, JsonV)>::empty());
        }
        let mut total: u64 = 0;
        let mut i: usize = 0;
        while i < entries.len()
            invariant
                i <= entries@.len(),
                es == jview_entries(entries@),
                es.len() == entries@.len(),
                forall|j: int|
                    0 <= j < entries@.len() ==> es[j] == (
                        entries@[j].0@,
                        jview(entries@[j].1),
                    ),
                total == spec_sum_years(es.take(i as int)),
            decreases entries@.len() - i,
        {
            let c: u64 = match entries[i].1.get2("contributionCalendar", "totalContributions") {
                Some(j) => match j.as_u64() {
                    Some(n) => n,
                    None => 0,
                },
                None => 0,
            };
            proof {
                assert(es.take(i as int + 1).drop_last() =~= es.take(i as int));
                assert(es.take(i as int + 1).last() == es[i as int]);
            }
            total = sat_add_u64(total, c);
            i += 1;
        }
        proof {
            assert(es.take(es.len() as int) =~= es);
        }
        total
    }
}


/// Law: a repository that is already recorded — as one appearing in both
/// the owned and the contributed-to listings is on its second appearance —
/// changes nothing when discovered again: it is counted exactly once, and
/// its stars and forks are added exactly once.
pub proof fn lemma_repo_counted_once(cfg: CfgV, node: JsonV, st: P1StateV)
    requires
        spec_repo_name(node) matches Some(name) && st.repos.contains(name),
    ensures
        spec_process_repo(cfg, node, st) == st,
{
}

/// Law: a repository excluded by name contributes nothing — not to the
/// repository list, not to stars or forks, and no language entry.
pub proof fn lemma_excluded_repo_ignored(cfg: CfgV, node: JsonV, st: P1StateV)
    requires
        spec_repo_name(node) matches Some(name) && cfg.excluded_repos.contains(name),
    ensures
        spec_process_repo(cfg, node, st) == st,
{
}

/// No raw language surviving the filter carries an excluded name; in
/// particular, none reads "HTML" under ASCII case folding.
pub proof fn lemma_filter_excludes(cfg: CfgV, edges: Seq<JsonV>)
    ensures
        forall|i: int|
            0 <= i < filter_edges(cfg, edges).len() ==> !lang_excluded(
                cfg,
                (#[trigger] filter_edges(cfg, edges)[i]).name,
            ),
    decreases edges.len(),
{
    if edges.len() > 0 {
        lemma_filter_excludes(cfg, edges.drop_last());
    }
}

/// No entry of the table is named `bad`, up to ASCII case.
pub open spec fn no_lang_named(s: Seq<(Seq<char>, LangIV)>, bad: Seq<char>) -> bool {
    forall|i: int| 0 <= i < s.len() ==> lower((#[trigger] s[i]).0) != lower(bad)
}

/// Folding an observation under a different name keeps `bad` out.
pub proof fn lemma_update_no_lang(
    s: Seq<(Seq<char>, LangIV)>,
    name: Seq<char>,
    w: u64,
    color: Option<Seq<char>>,
    bad: Seq<char>,
)
    requires
        no_lang_named(s, bad),
        lower(name) != lower(bad),
    ensures
        no_lang_named(langs_update(s, name, w, color), bad),
    decreases s.len(),
{
    if s.len() > 0 && s[0].0 != name {
        assert(forall|i: int|
            0 <= i < s.drop_first().len() ==> (#[trigger] s.drop_first()[i]) == s[i + 1]);
        lemma_update_no_lang(s.drop_first(), name, w, color, bad);
        let r = langs_update(s, name, w, color);
        assert(forall|i: int|
            0 <= i < r.len() ==> (#[trigger] r[i]) == (seq![s[0]] + langs_update(
                s.drop_first(),
                name,
                w,
                color,
            ))[i]);
    }
}

/// Folding one repository whose raw languages all avoid `bad` keeps `bad`
/// out of the table.
pub proof fn lemma_apply_repo_no_lang(
    langs: Seq<(Seq<char>, LangIV)>,
    entries: Seq<LangEdgeV>,
    r: Ratio,
    bad: Seq<char>,
)
    requires
        no_lang_named(langs, bad),
        forall|j: int| 0 <= j < entries.len() ==> lower((#[trigger] entries[j]).name) != lower(bad),
    ensures
        no_lang_named(apply_repo_langs(langs, entries, r), bad),
    decreases entries.len(),
{
    if entries.len() > 0 {
        lemma_apply_repo_no_lang(langs, entries.drop_last(), r, bad);
        lemma_update_no_lang(
            apply_repo_langs(langs, entries.drop_last(), r),
            entries.last().name,
            weighted64(entries.last().size, r),
            entries.last().color,
            bad,
        );
    }
}

/// Folding repositories whose raw language lists all avoid `bad` keeps
/// `bad` out of the table: the weighted fold adds no name of its own.
pub proof fn lemma_apply_all_no_lang(
    langs0: Seq<(Seq<char>, LangIV)>,
    rl: Seq<(Seq<char>, Seq<LangEdgeV>)>,
    rs: Seq<(Seq<char>, Ratio)>,
    bad: Seq<char>,
)
    requires
        no_lang_named(langs0, bad),
        forall|i: int, j: int|
            0 <= i < rl.len() && 0 <= j < (#[trigger] rl[i]).1.len() ==> lower(
                (#[trigger] rl[i].1[j]).name,
            ) != lower(bad),
    ensures
        no_lang_named(apply_all(langs0, rl, rs), bad),
    decreases rl.len(),
{
    if rl.len() > 0 {
        lemma_apply_all_no_lang(langs0, rl.drop_last(), rs, bad);
        assert(forall|i: int, j: int|
            0 <= i < rl.drop_last().len() && 0 <= j < (#[trigger] rl.drop_last()[i]).1.len()
                ==> rl.drop_last()[i] == rl[i] && lower((#[trigger] rl.drop_last()[i].1[j]).name)
                != lower(bad));
        let k = rl.len() - 1;
        assert(forall|j: int| 0 <= j < rl[k].1.len() ==> lower((#[trigger] rl[k].1[j]).name) != lower(bad));
        lemma_apply_repo_no_lang(
            apply_all(langs0, rl.drop_last(), rs),
            rl.last().1,
            repo_ratio(rs, rl.last().0),
            bad,
        );
    }
}


/// Every raw language list in the table avoids excluded names.
pub open spec fn repo_langs_filtered(cfg: CfgV, rl: Seq<(Seq<char>, Seq<LangEdgeV>)>) -> bool {
    forall|i: int, j: int|
        0 <= i < rl.len() && 0 <= j < (#[trigger] rl[i]).1.len() ==> !lang_excluded(
            cfg,
            (#[trigger] rl[i].1[j]).name,
        )
}

/// Repository discovery only ever records filtered language lists.
pub proof fn lemma_discovery_langs_filtered(cfg: CfgV, nodes: Seq<JsonV>, st: P1StateV)
    requires
        repo_langs_filtered(cfg, st.repo_langs),
    ensures
        repo_langs_filtered(cfg, spec_process_nodes(cfg, nodes, st).repo_langs),
    decreases nodes.len(),
{
    if nodes.len() > 0 {
        lemma_discovery_langs_filtered(cfg, nodes.drop_last(), st);
        let mid = spec_process_nodes(cfg, nodes.drop_last(), st);
        let node = nodes.last();
        match node.get("languages"@) {
            Some(l) => match l.get("edges"@) {
                Some(JsonV::Arr(a)) => {
                    lemma_filter_excludes(cfg, a);
                },
                _ => {},
            },
            None => {},
        }
        let post = spec_process_repo(cfg, node, mid);
        assert forall|i: int, j: int|
            0 <= i < post.repo_langs.len() && 0 <= j < (#[trigger] post.repo_langs[i]).1.len()
            implies !lang_excluded(cfg, (#[trigger] post.repo_langs[i].1[j]).name) by {
            if i < mid.repo_langs.len() {
                assert(post.repo_langs[i] == mid.repo_langs[i]);
            } else {
                assert(post.repo_langs[i].1 == node_langs(cfg, node));
            }
        }
    }
}

/// Law: starting from an empty table, folding any discovered repositories
/// under any weights yields a table in which a language named "HTML" —
/// or any other excluded name — never appears.
pub proof fn lemma_no_excluded_language_reported(
    cfg: CfgV,
    nodes: Seq<JsonV>,
    rs: Seq<(Seq<char>, Ratio)>,
    st0: P1StateV,
    bad: Seq<char>,
)
    requires
        st0.repo_langs.len() == 0,
        lang_excluded(cfg, bad),
    ensures
        no_lang_named(
            apply_all(
                Seq::<(Seq<char>, LangIV)>::empty(),
                spec_process_nodes(cfg, nodes, st0).repo_langs,
                rs,
            ),
            bad,
        ),
{
    lemma_discovery_langs_filtered(cfg, nodes, st0);
    let rl = spec_process_nodes(cfg, nodes, st0).repo_langs;
    assert forall|i: int, j: int|
        0 <= i < rl.len() && 0 <= j < (#[trigger] rl[i]).1.len() implies lower(
        (#[trigger] rl[i].1[j]).name,
    ) != lower(bad) by {
        assert(!lang_excluded(cfg, rl[i].1[j].name));
    }
    lemma_apply_all_no_lang(Seq::<(Seq<char>, LangIV)>::empty(), rl, rs, bad);
}


/// The discovery state after one whole page: the owned listing always,
/// the contributed-to listing unless forks are excluded.
pub open spec fn spec_page_state(cfg: CfgV, resp: JsonV, st: P1StateV) -> P1StateV {
    let v = viewer_of(resp);
    let st1 = spec_process_nodes(cfg, listing_nodes(v, "repositories"@), st);
    if !cfg.exclude_forked {
        spec_process_nodes(cfg, listing_nodes(v, "repositoriesContributedTo"@), st1)
    } else {
        st1
    }
}

/// The discovery state after a run of pages, in order.
pub open spec fn spec_pages_state(cfg: CfgV, pages: Seq<JsonV>, st: P1StateV) -> P1StateV
    decreases pages.len(),
{
    if pages.len() == 0 {
        st
    } else {
        spec_page_state(cfg, pages.last(), spec_pages_state(cfg, pages.drop_last(), st))
    }
}

/// The display name after a run of pages: each page fills it only while
/// it is still empty.
pub open spec fn spec_pages_name(pages: Seq<JsonV>, name0: Seq<char>) -> Seq<char>
    decreases pages.len(),
{
    if pages.len() == 0 {
        name0
    } else {
        let prev = spec_pages_name(pages.drop_last(), name0);
        if prev.len() == 0 {
            page_name(viewer_of(pages.last()))
        } else {
            prev
        }
    }
}

/// The language table with each entry's percentage share derived from the
/// weighted sizes.
pub open spec fn spec_finalized(s: Seq<(Seq<char>, LangIV)>) -> Seq<(Seq<char>, LangIV)> {
    Seq::new(
        s.len(),
        |i: int|
            (
                s[i].0,
                LangIV {
                    size: s[i].1.size,
                    occurrences: s[i].1.occurrences,
                    color: s[i].1.color,
                    percent_milli: percent_milli_of(s[i].1.size, langs_total_size(s)),
                },
            ),
    )
}

/// The weights recorded for a run, in repository order.
pub open spec fn spec_ratio_table(
    username: Seq<char>,
    sm: Seq<(Seq<char>, JsonV)>,
    names: Seq<Seq<char>>,
) -> Seq<(Seq<char>, Ratio)> {
    Seq::new(names.len(), |i: int| (names[i], ratio_of(repo_ratio_result(username, sm, names[i]))))
}

/// The empty discovery state a run starts from.
pub open spec fn spec_empty_state() -> P1StateV {
    P1StateV { repos: Seq::empty(), repo_langs: Seq::empty(), stars: 0, forks: 0 }
}

/// The weighted language table a collection run builds, before the
/// percentage shares are derived.
pub open spec fn spec_run_language_table(
    cfg: CfgV,
    pages: Seq<JsonV>,
    contributor_results: Seq<(Seq<char>, Option<JsonV>)>,
) -> Seq<(Seq<char>, LangIV)> {
    let st = spec_pages_state(cfg, pages, spec_empty_state());
    let sm = spec_index_results(contributor_results);
    apply_all(Seq::empty(), st.repo_langs, spec_ratio_table(cfg.username, sm, st.repos))
}

/// The whole report a collection run produces from its responses.
pub open spec fn spec_report(
    cfg: CfgV,
    pages: Seq<JsonV>,
    contributor_results: Seq<(Seq<char>, Option<JsonV>)>,
    combined_years: JsonV,
    traffic_results: Seq<(Seq<char>, Option<JsonV>)>,
) -> StatsV {
    let st = spec_pages_state(cfg, pages, spec_empty_state());
    let sm = spec_index_results(contributor_results);
    let table = spec_run_language_table(cfg, pages, contributor_results);
    let lines = all_user_lines(cfg.username, sm);
    StatsV {
        name: spec_pages_name(pages, Seq::empty()),
        username: cfg.username,
        total_stars: st.stars,
        total_forks: st.forks,
        total_contributions: match viewer_of(combined_years) {
            JsonV::Obj(es) => spec_sum_years(es),
            _ => 0,
        },
        total_repos: st.repos.len() as int,
        lines_added: lines.0,
        lines_deleted: lines.1,
        total_views: spec_sum_views(traffic_results),
        languages: spec_finalized(table),
    }
}

impl StatsCollector {
    /// One whole collection run, as a function of the responses the
    /// network gave: the repository pages in order, the contributor batch,
    /// the two contribution queries' responses, and the traffic batch.
    /// Fails only where the contribution-years listing is missing; with an
    /// empty years listing the contribution total is zero and the combined
    /// response is not consulted.
    pub fn collect_all_stats(
        &self,
        pages: &Vec<Json>,
        contributor_results: &Vec<(String, Option<Json>)>,
        years_response: &Json,
        combined_years_response: &Json,
        traffic_results: &Vec<(String, Option<Json>)>,
    ) -> (r: Result<Stats, ApiError>)
        requires
            langs_total_size(
                spec_run_language_table(
                    self.cfg(),
                    jview_seq(pages@),
                    results_view(contributor_results@),
                ),
            ) <= u64::MAX,
        ensures
            match years_listing(years_response@) {
                None => r matches Err(e) && e@ == ApiErrorV::MissingContributionYears,
                Some(a) => r matches Ok(stats) && stats@ == (StatsV {
                    total_contributions: if years_of(a).len() == 0 {
                        0
                    } else {
                        match viewer_of(combined_years_response@) {
                            JsonV::Obj(es) => spec_sum_years(es),
                            _ => 0,
                        }
                    },
                    ..spec_report(
                        self.cfg(),
                        jview_seq(pages@),
                        results_view(contributor_results@),
                        combined_years_response@,
                        results_view(traffic_results@),
                    )
                }),
            },
    {
        let ghost cfg = self.cfg();
        let ghost pvs = jview_seq(pages@);
        let ghost empty_state = spec_empty_state();
        let years = match Self::parse_contribution_years(years_response) {
            Ok(years) => years,
            Err(e) => {
                return Err(e);
            },
        };
        let mut stats = Stats::new(self.username.as_str());
        let mut repos: Vec<String> = Vec::new();
        let mut repo_languages: Vec<(String, RepoData)> = Vec::new();
        proof {
            lemma_jview_seq(pages@);
            assert(pvs.take(0) =~= Seq::<JsonV>::empty());
            assert(repos@.map_values(|s: String| s@) =~= Seq::<Seq<char>>::empty());
            assert(repo_langs_view(repo_languages@) =~= Seq::<(Seq<char>, Seq<LangEdgeV>)>::empty());
            assert(langs_view(stats.languages@) =~= Seq::<(Seq<char>, LangIV)>::empty());
        }
        let mut i: usize = 0;
        while i < pages.len()
            invariant
                i <= pages@.len(),
                cfg == self.cfg(),
                pvs == jview_seq(pages@),
                pvs.len() == pages@.len(),
                forall|j: int| 0 <= j < pages@.len() ==> pvs[j] == jview(pages@[j]),
                ({
                    let st = spec_pages_state(cfg, pvs.take(i as int), empty_state);
                    &&& repos@.map_values(|s: String| s@) == st.repos
                    &&& repo_langs_view(repo_languages@) == st.repo_langs
                    &&& stats.total_stars == st.stars
                    &&& stats.total_forks == st.forks
                }),
                stats.name@ == spec_pages_name(pvs.take(i as int), Seq::<char>::empty()),
                stats.username@ == cfg.username,
                stats.total_contributions == 0,
                stats.total_repos == 0,
                stats.lines_added == 0,
                stats.lines_deleted == 0,
                stats.total_views == 0,
                stats.languages@.len() == 0,
            decreases pages@.len() - i,
        {
            proof {
                assert(pvs.take(i as int + 1).drop_last() =~= pvs.take(i as int));
                assert(pvs.take(i as int + 1).last() == pvs[i as int]);
            }
            let _cursors = self.collect_repos_page(
                &pages[i],
                None,
                None,
                &mut repos,
                &mut repo_languages,
                &mut stats,
            );
            i += 1;
        }
        proof {
            assert(pvs.take(pvs.len() as int) =~= pvs);
        }
        stats.total_repos = repos.len();
        let contributor_stats = index_contributor_results(contributor_results);
        let (ratios, _weighted, _fallback) = self.calculate_contribution_ratios(
            &contributor_stats,
            &repos,
        );
        let ghost st = spec_pages_state(cfg, pvs, empty_state);
        let ghost sm = spec_index_results(results_view(contributor_results@));
        proof {
            assert(jview_entries(contributor_stats@) == sm);
            assert(ratios_view(ratios@) =~= spec_ratio_table(cfg.username, sm, st.repos));
        }
        proof {
            assert(langs_view(stats.languages@) =~= Seq::<(Seq<char>, LangIV)>::empty());
        }
        StatsCollector::apply_weighted_languages(&repo_languages, &ratios, &mut stats);
        proof {
            assert(langs_view(stats.languages@) == apply_all(
                Seq::empty(),
                st.repo_langs,
                spec_ratio_table(cfg.username, sm, st.repos),
            ));
        }
        let (added, deleted) = self.extract_lines_changed(&contributor_stats);
        stats.lines_added = added;
        stats.lines_deleted = deleted;
        stats.total_contributions = if years.is_empty() {
            0
        } else {
            Self::sum_yearly_contributions(combined_years_response)
        };
        stats.total_views = sum_traffic_views(traffic_results);
        stats.finalize_percentages();
        proof {
            let rep = spec_report(
                cfg,
                pvs,
                results_view(contributor_results@),
                combined_years_response@,
                results_view(traffic_results@),
            );
            assert(langs_view(stats.languages@) =~= spec_finalized(
                apply_all(Seq::empty(), st.repo_langs, spec_ratio_table(cfg.username, sm, st.repos)),
            ));
        }
        Ok(stats)
    }
}

} // verus!
