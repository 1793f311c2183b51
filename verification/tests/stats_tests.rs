use github_stats::client::ApiError;
use github_stats::json::Json;
use github_stats::stats::{
    contributor_stats_paths, index_contributor_results, sum_traffic_views, Ratio, RatioResult,
    Stats, StatsCollector,
};

fn obj(fields: Vec<(&str, Json)>) -> Json {
    Json::Obj(fields.into_iter().map(|(k, v)| (String::from(k), v)).collect())
}

fn s(text: &str) -> Json {
    Json::Str(String::from(text))
}

fn lang_edge(name: &str, size: u64, color: &str) -> Json {
    obj(vec![
        ("size", Json::UInt(size)),
        ("node", obj(vec![("name", s(name)), ("color", s(color))])),
    ])
}

fn repo_node(name: &str, stars: u64, forks: u64, edges: Vec<Json>) -> Json {
    obj(vec![
        ("nameWithOwner", s(name)),
        ("stargazers", obj(vec![("totalCount", Json::UInt(stars))])),
        ("forkCount", Json::UInt(forks)),
        ("languages", obj(vec![("edges", Json::Arr(edges))])),
    ])
}

fn collector() -> StatsCollector {
    StatsCollector::new("me", vec![String::from("me/excluded")], vec![String::from("Python")], false)
}

fn week(a: u64, d: u64) -> Json {
    obj(vec![("a", Json::UInt(a)), ("d", Json::UInt(d))])
}

fn contributor(login: &str, weeks: Vec<Json>) -> Json {
    obj(vec![
        ("author", obj(vec![("login", s(login))])),
        ("weeks", Json::Arr(weeks)),
    ])
}

#[test]
fn process_repo_records_name_stars_forks_and_languages() {
    let c = collector();
    let node = repo_node(
        "me/repo",
        5,
        2,
        vec![
            lang_edge("Rust", 100, "#f00"),
            lang_edge("HTML", 9999, "#0f0"),
            lang_edge("python", 50, "#00f"),
            lang_edge("C", 30, "#111"),
        ],
    );
    let mut repos = Vec::new();
    let mut repo_languages = Vec::new();
    let mut stats = Stats::new("me");
    c.process_repo(&node, &mut repos, &mut repo_languages, &mut stats);
    assert_eq!(repos, vec![String::from("me/repo")]);
    assert_eq!(stats.total_stars, 5);
    assert_eq!(stats.total_forks, 2);
    assert_eq!(repo_languages.len(), 1);
    let langs = &repo_languages[0].1.languages;
    // HTML always drops; "python" matches the excluded "Python" ignoring case
    assert_eq!(langs.len(), 2);
    assert_eq!(langs[0].name, "Rust");
    assert_eq!(langs[0].size, 100);
    assert_eq!(langs[0].color.as_deref(), Some("#f00"));
    assert_eq!(langs[1].name, "C");
}

#[test]
fn repo_seen_twice_counts_once() {
    let c = collector();
    let node = repo_node("me/repo", 5, 2, vec![]);
    let mut repos = Vec::new();
    let mut repo_languages = Vec::new();
    let mut stats = Stats::new("me");
    c.process_repo(&node, &mut repos, &mut repo_languages, &mut stats);
    c.process_repo(&node, &mut repos, &mut repo_languages, &mut stats);
    assert_eq!(repos.len(), 1);
    assert_eq!(stats.total_stars, 5);
    assert_eq!(stats.total_forks, 2);
    assert_eq!(repo_languages.len(), 1);
}

#[test]
fn excluded_repo_contributes_nothing() {
    let c = collector();
    let node = repo_node("me/excluded", 50, 20, vec![lang_edge("Rust", 10, "#f00")]);
    let mut repos = Vec::new();
    let mut repo_languages = Vec::new();
    let mut stats = Stats::new("me");
    c.process_repo(&node, &mut repos, &mut repo_languages, &mut stats);
    assert!(repos.is_empty());
    assert_eq!(stats.total_stars, 0);
    assert_eq!(stats.total_forks, 0);
    assert!(repo_languages.is_empty());
}

#[test]
fn null_or_nameless_nodes_are_skipped() {
    let c = collector();
    let mut repos = Vec::new();
    let mut repo_languages = Vec::new();
    let mut stats = Stats::new("me");
    c.process_repo(&Json::Null, &mut repos, &mut repo_languages, &mut stats);
    c.process_repo(&obj(vec![("forkCount", Json::UInt(3))]), &mut repos, &mut repo_languages, &mut stats);
    assert!(repos.is_empty());
    assert_eq!(stats.total_forks, 0);
}

#[test]
fn ratio_empty_contributor_array_falls_back() {
    let c = collector();
    assert_eq!(c.calculate_single_ratio(&Json::Arr(vec![])), RatioResult::FallbackEmptyStats);
}

#[test]
fn ratio_non_array_falls_back() {
    let c = collector();
    assert_eq!(c.calculate_single_ratio(&Json::Null), RatioResult::FallbackNoStats);
}

#[test]
fn ratio_user_absent_falls_back() {
    let c = collector();
    let doc = Json::Arr(vec![contributor("other", vec![week(10, 0)])]);
    assert_eq!(c.calculate_single_ratio(&doc), RatioResult::FallbackUserNotFound);
}

#[test]
fn ratio_no_lines_falls_back() {
    let c = collector();
    let doc = Json::Arr(vec![contributor("me", vec![week(0, 5)])]);
    assert_eq!(c.calculate_single_ratio(&doc), RatioResult::FallbackNoLines);
}

#[test]
fn ratio_is_user_share_of_lines_added() {
    let c = collector();
    let doc = Json::Arr(vec![
        contributor("ME", vec![week(30, 0), week(20, 0)]),
        contributor("other", vec![week(150, 0)]),
    ]);
    // the login match ignores case: 50 of 200 lines added
    assert_eq!(c.calculate_single_ratio(&doc), RatioResult::Calculated { num: 50, den: 200 });
}

#[test]
fn quarter_ratio_scales_language_sizes_rounded() {
    let mut stats = Stats::new("me");
    let mut repo_languages = Vec::new();
    let mut repos = Vec::new();
    let c = collector();
    let node = repo_node("me/repo", 0, 0, vec![lang_edge("Rust", 1000, "#f00"), lang_edge("C", 10, "#111")]);
    c.process_repo(&node, &mut repos, &mut repo_languages, &mut stats);
    let ratios = vec![(String::from("me/repo"), Ratio { num: 50, den: 200 })];
    StatsCollector::apply_weighted_languages(&repo_languages, &ratios, &mut stats);
    assert_eq!(stats.languages.len(), 2);
    assert_eq!(stats.languages[0].0, "Rust");
    assert_eq!(stats.languages[0].1.size, 250);
    assert_eq!(stats.languages[0].1.occurrences, 1);
    // 10 * 0.25 = 2.5 rounds to 3 (half rounds up)
    assert_eq!(stats.languages[1].1.size, 3);
}

#[test]
fn language_color_is_fixed_by_first_observation() {
    let mut stats = Stats::new("me");
    let mut repo_languages = Vec::new();
    let mut repos = Vec::new();
    let c = collector();
    c.process_repo(&repo_node("me/a", 0, 0, vec![lang_edge("Rust", 10, "#f00")]),
        &mut repos, &mut repo_languages, &mut stats);
    c.process_repo(&repo_node("me/b", 0, 0, vec![lang_edge("Rust", 20, "#bbb")]),
        &mut repos, &mut repo_languages, &mut stats);
    let ratios = Vec::new();
    StatsCollector::apply_weighted_languages(&repo_languages, &ratios, &mut stats);
    assert_eq!(stats.languages.len(), 1);
    assert_eq!(stats.languages[0].1.size, 30);
    assert_eq!(stats.languages[0].1.occurrences, 2);
    assert_eq!(stats.languages[0].1.color.as_deref(), Some("#f00"));
}

#[test]
fn ratio_table_counts_weighted_and_fallbacks() {
    let c = collector();
    let stats_map = vec![
        (String::from("me/a"), Json::Arr(vec![contributor("me", vec![week(10, 0)])])),
        (String::from("me/b"), Json::Arr(vec![])),
    ];
    let all = vec![String::from("me/a"), String::from("me/b"), String::from("me/c")];
    let (ratios, weighted, fallback) = c.calculate_contribution_ratios(&stats_map, &all);
    assert_eq!(ratios.len(), 3);
    assert_eq!(ratios[0].1, Ratio { num: 10, den: 10 });
    assert_eq!(ratios[1].1, Ratio { num: 1, den: 1 });
    assert_eq!(ratios[2].1, Ratio { num: 1, den: 1 });
    assert_eq!(weighted, 1);
    assert_eq!(fallback, 2);
}

#[test]
fn lines_changed_sums_only_the_user() {
    let c = collector();
    let stats_map = vec![
        (
            String::from("me/a"),
            Json::Arr(vec![
                contributor("me", vec![week(10, 4), week(5, 1)]),
                contributor("other", vec![week(100, 100)]),
            ]),
        ),
        (String::from("me/b"), Json::Arr(vec![contributor("ME", vec![week(7, 2)])])),
    ];
    let (added, deleted) = c.extract_lines_changed(&stats_map);
    assert_eq!(added, 22);
    assert_eq!(deleted, 7);
}

#[test]
fn percentages_sum_close_to_whole() {
    let mut stats = Stats::new("me");
    let mut repo_languages = Vec::new();
    let mut repos = Vec::new();
    let c = collector();
    let node = repo_node("me/a", 0, 0, vec![lang_edge("Rust", 1, "#f00"), lang_edge("C", 2, "#111")]);
    c.process_repo(&node, &mut repos, &mut repo_languages, &mut stats);
    StatsCollector::apply_weighted_languages(&repo_languages, &Vec::new(), &mut stats);
    stats.finalize_percentages();
    // 1/3 and 2/3 in thousandths of a percent
    assert_eq!(stats.languages[0].1.percent_milli, 33333);
    assert_eq!(stats.languages[1].1.percent_milli, 66666);
    let sum: u64 = stats.languages.iter().map(|l| l.1.percent_milli).sum();
    assert!(sum <= 100000 && sum > 100000 - stats.languages.len() as u64);
}

#[test]
fn zero_total_size_means_zero_percentages() {
    let mut stats = Stats::new("me");
    let mut repo_languages = Vec::new();
    let mut repos = Vec::new();
    let c = collector();
    let node = repo_node("me/a", 0, 0, vec![lang_edge("Rust", 0, "#f00")]);
    c.process_repo(&node, &mut repos, &mut repo_languages, &mut stats);
    StatsCollector::apply_weighted_languages(&repo_languages, &Vec::new(), &mut stats);
    stats.finalize_percentages();
    assert_eq!(stats.languages[0].1.percent_milli, 0);
}

#[test]
fn page_sets_name_and_returns_cursors() {
    let c = collector();
    let page = obj(vec![(
        "data",
        obj(vec![(
            "viewer",
            obj(vec![
                ("name", s("Maintainer")),
                ("login", s("me")),
                (
                    "repositories",
                    obj(vec![
                        ("nodes", Json::Arr(vec![repo_node("me/a", 1, 0, vec![])])),
                        (
                            "pageInfo",
                            obj(vec![("hasNextPage", Json::Bool(true)), ("endCursor", s("C1"))]),
                        ),
                    ]),
                ),
                (
                    "repositoriesContributedTo",
                    obj(vec![
                        ("nodes", Json::Arr(vec![repo_node("other/b", 2, 1, vec![])])),
                        ("pageInfo", obj(vec![("hasNextPage", Json::Bool(false))])),
                    ]),
                ),
            ]),
        )]),
    )]);
    let mut repos = Vec::new();
    let mut repo_languages = Vec::new();
    let mut stats = Stats::new("me");
    let (oc, cc) = c.collect_repos_page(&page, None, None, &mut repos, &mut repo_languages, &mut stats);
    assert_eq!(stats.name, "Maintainer");
    assert_eq!(repos, vec![String::from("me/a"), String::from("other/b")]);
    assert_eq!(stats.total_stars, 3);
    assert_eq!(oc.as_deref(), Some("C1"));
    assert_eq!(cc, None);
}

#[test]
fn excluding_forks_skips_the_contributed_listing() {
    let c = StatsCollector::new("me", vec![], vec![], true);
    let page = obj(vec![(
        "data",
        obj(vec![(
            "viewer",
            obj(vec![
                ("login", s("me")),
                (
                    "repositoriesContributedTo",
                    obj(vec![("nodes", Json::Arr(vec![repo_node("other/b", 2, 1, vec![])]))]),
                ),
            ]),
        )]),
    )]);
    let mut repos = Vec::new();
    let mut repo_languages = Vec::new();
    let mut stats = Stats::new("me");
    c.collect_repos_page(&page, None, None, &mut repos, &mut repo_languages, &mut stats);
    assert!(repos.is_empty());
    // no name field: the login stands in
    assert_eq!(stats.name, "me");
}

#[test]
fn garbage_page_reads_as_unknown() {
    let c = collector();
    let mut repos = Vec::new();
    let mut repo_languages = Vec::new();
    let mut stats = Stats::new("me");
    c.collect_repos_page(&Json::Null, None, None, &mut repos, &mut repo_languages, &mut stats);
    assert_eq!(stats.name, "Unknown");
    assert!(repos.is_empty());
}

#[test]
fn repos_query_carries_the_cursors() {
    let q = StatsCollector::build_repos_query(Some("AAA"), None);
    assert!(q.contains("after: \"AAA\""));
    assert!(q.contains("after: null"));
    assert!(q.contains("repositoriesContributedTo"));
}

#[test]
fn contribution_years_parse_and_query() {
    let resp = obj(vec![(
        "data",
        obj(vec![(
            "viewer",
            obj(vec![(
                "contributionsCollection",
                obj(vec![("contributionYears", Json::Arr(vec![Json::UInt(2023), Json::UInt(2022)]))]),
            )]),
        )]),
    )]);
    let years = StatsCollector::parse_contribution_years(&resp).unwrap();
    assert_eq!(years, vec![2023, 2022]);
    let q = StatsCollector::build_years_query(&years);
    assert!(q.contains("year2023: contributionsCollection(from: \"2023-01-01T00:00:00Z\", to: \"2024-01-01T00:00:00Z\")"));
    assert!(q.contains("year2022"));
}

#[test]
fn missing_years_listing_is_a_hard_error() {
    let r = StatsCollector::parse_contribution_years(&Json::Null);
    assert!(matches!(r, Err(ApiError::MissingContributionYears)));
}

#[test]
fn yearly_totals_sum() {
    let resp = obj(vec![(
        "data",
        obj(vec![(
            "viewer",
            obj(vec![
                (
                    "year2022",
                    obj(vec![(
                        "contributionCalendar",
                        obj(vec![("totalContributions", Json::UInt(120))]),
                    )]),
                ),
                (
                    "year2023",
                    obj(vec![(
                        "contributionCalendar",
                        obj(vec![("totalContributions", Json::UInt(80))]),
                    )]),
                ),
            ]),
        )]),
    )]);
    assert_eq!(StatsCollector::sum_yearly_contributions(&resp), 200);
}

#[test]
fn traffic_views_sum_and_tolerate_failures() {
    let results = vec![
        (
            String::from("/repos/me/a/traffic/views"),
            Some(obj(vec![(
                "views",
                Json::Arr(vec![
                    obj(vec![("count", Json::UInt(5))]),
                    obj(vec![("count", Json::UInt(7))]),
                ]),
            )])),
        ),
        (String::from("/repos/me/b/traffic/views"), None),
    ];
    assert_eq!(sum_traffic_views(&results), 12);
}

#[test]
fn contributor_paths_and_indexing_round_trip() {
    let repos = vec![String::from("me/a"), String::from("me/b")];
    let paths = contributor_stats_paths(&repos);
    assert_eq!(paths[0], "/repos/me/a/stats/contributors");
    let results = vec![
        (paths[0].clone(), Some(Json::Arr(vec![]))),
        (paths[1].clone(), None),
        (String::from("odd"), Some(Json::Null)),
    ];
    let indexed = index_contributor_results(&results);
    assert_eq!(indexed.len(), 1);
    assert_eq!(indexed[0].0, "me/a");
    assert_eq!(indexed[0].1, Json::Arr(vec![]));
}

#[test]
fn full_collection_pipeline() {
    let c = StatsCollector::new("me", vec![], vec![], false);
    let mut stats = Stats::new("me");
    let mut repos = Vec::new();
    let mut repo_languages = Vec::new();

    // Phase 1: one page, both listings exhausted after it.
    let page = obj(vec![(
        "data",
        obj(vec![(
            "viewer",
            obj(vec![
                ("name", s("Me")),
                (
                    "repositories",
                    obj(vec![
                        (
                            "nodes",
                            Json::Arr(vec![
                                repo_node("me/a", 3, 1, vec![lang_edge("Rust", 1000, "#f00")]),
                                repo_node("me/b", 2, 0, vec![lang_edge("C", 300, "#111")]),
                            ]),
                        ),
                        ("pageInfo", obj(vec![("hasNextPage", Json::Bool(false))])),
                    ]),
                ),
                (
                    "repositoriesContributedTo",
                    obj(vec![
                        (
                            "nodes",
                            Json::Arr(vec![repo_node(
                                "other/c",
                                1,
                                1,
                                vec![lang_edge("Rust", 500, "#bbb")],
                            )]),
                        ),
                        ("pageInfo", obj(vec![("hasNextPage", Json::Bool(false))])),
                    ]),
                ),
            ]),
        )]),
    )]);
    let (oc, cc) =
        c.collect_repos_page(&page, None, None, &mut repos, &mut repo_languages, &mut stats);
    assert!(oc.is_none() && cc.is_none());
    stats.total_repos = repos.len();

    // Phase 2: one batch result per repository; me/b's fetch failed.
    let paths = contributor_stats_paths(&repos);
    let results = vec![
        (
            paths[0].clone(),
            Some(Json::Arr(vec![
                contributor("me", vec![week(50, 10)]),
                contributor("other", vec![week(150, 0)]),
            ])),
        ),
        (paths[1].clone(), None),
        (paths[2].clone(), Some(Json::Arr(vec![]))),
    ];
    let contributor_stats = index_contributor_results(&results);

    // Phase 3: one computed ratio, two fallbacks.
    let (ratios, weighted, fallback) = c.calculate_contribution_ratios(&contributor_stats, &repos);
    assert_eq!((weighted, fallback), (1, 2));
    StatsCollector::apply_weighted_languages(&repo_languages, &ratios, &mut stats);
    let (added, deleted) = c.extract_lines_changed(&contributor_stats);
    stats.lines_added = added;
    stats.lines_deleted = deleted;

    // Phase 4: contribution years and traffic views.
    let years_resp = obj(vec![(
        "data",
        obj(vec![(
            "viewer",
            obj(vec![(
                "contributionsCollection",
                obj(vec![("contributionYears", Json::Arr(vec![Json::UInt(2024)]))]),
            )]),
        )]),
    )]);
    let years = StatsCollector::parse_contribution_years(&years_resp).unwrap();
    let _query = StatsCollector::build_years_query(&years);
    let combined = obj(vec![(
        "data",
        obj(vec![(
            "viewer",
            obj(vec![(
                "year2024",
                obj(vec![(
                    "contributionCalendar",
                    obj(vec![("totalContributions", Json::UInt(500))]),
                )]),
            )]),
        )]),
    )]);
    stats.total_contributions = StatsCollector::sum_yearly_contributions(&combined);
    let views = vec![(
        String::from("/repos/me/a/traffic/views"),
        Some(obj(vec![(
            "views",
            Json::Arr(vec![
                obj(vec![("count", Json::UInt(2))]),
                obj(vec![("count", Json::UInt(3))]),
            ]),
        )])),
    )];
    stats.total_views = sum_traffic_views(&views);

    stats.finalize_percentages();

    assert_eq!(stats.name, "Me");
    assert_eq!(stats.total_repos, 3);
    assert_eq!(stats.total_stars, 6);
    assert_eq!(stats.total_forks, 2);
    assert_eq!(stats.lines_added, 50);
    assert_eq!(stats.lines_deleted, 10);
    assert_eq!(stats.total_contributions, 500);
    assert_eq!(stats.total_views, 5);
    // Rust: 1000 * 0.25 + 500 * 1.0 = 750 of 1050; C: 300 of 1050
    assert_eq!(stats.languages.len(), 2);
    assert_eq!(stats.languages[0].0, "Rust");
    assert_eq!(stats.languages[0].1.size, 750);
    assert_eq!(stats.languages[0].1.occurrences, 2);
    assert_eq!(stats.languages[0].1.percent_milli, 71428);
    assert_eq!(stats.languages[1].0, "C");
    assert_eq!(stats.languages[1].1.size, 300);
    assert_eq!(stats.languages[1].1.percent_milli, 28571);
}

#[test]
fn whole_run_from_responses() {
    let c = StatsCollector::new("me", vec![], vec![], false);
    let page = obj(vec![(
        "data",
        obj(vec![(
            "viewer",
            obj(vec![
                ("name", s("Me")),
                (
                    "repositories",
                    obj(vec![(
                        "nodes",
                        Json::Arr(vec![repo_node("me/a", 3, 1, vec![lang_edge("Rust", 1000, "#f00")])]),
                    )]),
                ),
            ]),
        )]),
    )]);
    let contributor_results = vec![(
        String::from("/repos/me/a/stats/contributors"),
        Some(Json::Arr(vec![
            contributor("me", vec![week(50, 10)]),
            contributor("other", vec![week(150, 0)]),
        ])),
    )];
    let years_resp = obj(vec![(
        "data",
        obj(vec![(
            "viewer",
            obj(vec![(
                "contributionsCollection",
                obj(vec![("contributionYears", Json::Arr(vec![Json::UInt(2024)]))]),
            )]),
        )]),
    )]);
    let combined = obj(vec![(
        "data",
        obj(vec![(
            "viewer",
            obj(vec![(
                "year2024",
                obj(vec![(
                    "contributionCalendar",
                    obj(vec![("totalContributions", Json::UInt(500))]),
                )]),
            )]),
        )]),
    )]);
    let traffic = vec![(
        String::from("/repos/me/a/traffic/views"),
        Some(obj(vec![("views", Json::Arr(vec![obj(vec![("count", Json::UInt(9))])]))])),
    )];
    let stats = c
        .collect_all_stats(&vec![page], &contributor_results, &years_resp, &combined, &traffic)
        .unwrap();
    assert_eq!(stats.name, "Me");
    assert_eq!(stats.total_repos, 1);
    assert_eq!(stats.total_stars, 3);
    assert_eq!(stats.total_forks, 1);
    assert_eq!(stats.total_contributions, 500);
    assert_eq!(stats.total_views, 9);
    assert_eq!(stats.lines_added, 50);
    assert_eq!(stats.lines_deleted, 10);
    assert_eq!(stats.languages.len(), 1);
    assert_eq!(stats.languages[0].1.size, 250);
    assert_eq!(stats.languages[0].1.percent_milli, 100000);
}

#[test]
fn whole_run_fails_without_the_years_listing() {
    let c = StatsCollector::new("me", vec![], vec![], false);
    let r = c.collect_all_stats(&vec![], &vec![], &Json::Null, &Json::Null, &vec![]);
    assert!(matches!(r, Err(ApiError::MissingContributionYears)));
}
