use github_stats::stats::{LanguageInfo, Stats};
use github_stats::svg::{format_number, sorted_languages, SvgGenerator};

fn lang(name: &str, size: u64, color: Option<&str>, percent_milli: u64) -> (String, LanguageInfo) {
    (
        String::from(name),
        LanguageInfo {
            size,
            occurrences: 1,
            color: color.map(String::from),
            percent_milli,
        },
    )
}

fn report_with(languages: Vec<(String, LanguageInfo)>) -> Stats {
    let mut stats = Stats::new("me");
    stats.languages = languages;
    stats
}

#[test]
fn numbers_group_in_threes() {
    assert_eq!(format_number(0), "0");
    assert_eq!(format_number(123), "123");
    assert_eq!(format_number(1000), "1,000");
    assert_eq!(format_number(1234567), "1,234,567");
}

#[test]
fn overview_substitutes_every_placeholder() {
    let mut stats = Stats::new("me");
    stats.name = String::from("Maintainer");
    stats.total_stars = 1234;
    stats.total_forks = 5;
    stats.total_contributions = 999;
    stats.total_repos = 12;
    stats.lines_added = 600;
    stats.lines_deleted = 400;
    stats.total_views = 7;
    let template = "{{ name }}|{{ stars }}|{{ forks }}|{{ contributions }}|{{ lines_changed }}|{{ views }}|{{ repos }}";
    let out = SvgGenerator::generate_overview(&stats, template);
    assert_eq!(out, "Maintainer|1,234|5|999|1,000|7|12");
}

#[test]
fn languages_render_sorted_with_percentages() {
    let stats = report_with(vec![
        lang("C", 100, Some("#111111"), 33333),
        lang("Rust", 200, Some("#dea584"), 66666),
    ]);
    let out = SvgGenerator::generate_languages(&stats, "{{ progress }}#{{ lang_list }}");
    // larger language first, three decimals in the bar, two in the list
    let rust = out.find("66.666").expect("bar width for the larger language");
    let c = out.find("33.333").expect("bar width for the smaller language");
    assert!(rust < c);
    assert!(out.contains("66.67%"));
    assert!(out.contains("33.33%"));
    assert!(out.contains("<span class=\"lang\">Rust</span>"));
    assert!(out.contains("#dea584"));
    assert!(out.contains("animation-delay: 0ms"));
    assert!(out.contains("animation-delay: 150ms"));
}

#[test]
fn missing_color_renders_black() {
    let stats = report_with(vec![lang("Rust", 10, None, 100000)]);
    let out = SvgGenerator::generate_languages(&stats, "{{ progress }}");
    assert!(out.contains("background-color: #000000"));
}

#[test]
fn only_the_largest_twelve_languages_render() {
    let mut langs = Vec::new();
    for i in 0..15u64 {
        langs.push(lang(&format!("L{}", i), 100 - i, None, 0));
    }
    let stats = report_with(langs);
    let out = SvgGenerator::generate_languages(&stats, "{{ lang_list }}");
    assert!(out.contains("<span class=\"lang\">L0</span>"));
    assert!(out.contains("<span class=\"lang\">L11</span>"));
    assert!(!out.contains("<span class=\"lang\">L12</span>"));
}

#[test]
fn sorting_is_by_size_descending() {
    let stats = report_with(vec![
        lang("A", 5, None, 0),
        lang("B", 50, None, 0),
        lang("C", 20, None, 0),
    ]);
    let sorted = sorted_languages(&stats);
    let names: Vec<&str> = sorted.iter().map(|e| e.0.as_str()).collect();
    assert_eq!(names, vec!["B", "C", "A"]);
}
