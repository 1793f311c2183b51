//! Badge rendering: the string-substitution step.
//!
//! Consumes a finished report and a template, and substitutes the
//! aggregated numbers in.  Reading templates and writing the rendered
//! files is the surrounding process's work.

use vstd::prelude::*;

verus! {

use vstd::string::StringExecFns;
use vstd::string::StrSliceExecFns;
use crate::text::{dec_str, digit_char, u64_to_string};
use crate::stats::{Stats, LanguageInfo, LangIV, langs_view, sat_add64, sat_add_u64};

/// How many languages at most the languages badge lists.
pub const MAX_LANGUAGES: usize = 12;

/// `n` in decimal with a comma between each group of three digits.
pub open spec fn grouped(s: Seq<char>) -> Seq<char>
    decreases s.len(),
{
    if s.len() <= 3 {
        s
    } else {
        grouped(s.take(s.len() - 3)) + seq![','] + s.skip(s.len() - 3)
    }
}

/// Groups the digits of a rendered number with commas.
fn group_digits(s: &str) -> (r: String)
    ensures
        r@ == grouped(s@),
    decreases s@.len(),
{
    let n = s.unicode_len();
    if n <= 3 {
        String::from_str(s)
    } else {
        let head = s.substring_char(0, n - 3);
        let tail = s.substring_char(n - 3, n);
        let mut r = group_digits(head);
        r.append(",");
        r.append(tail);
        proof {
            reveal_strlit(",");
            assert(r@ =~= grouped(s@));
        }
        r
    }
}

/// Renders `n` in decimal with thousands separators.
pub fn format_number(n: u64) -> (r: String)
    ensures
        r@ == grouped(dec_str(n as nat)),
{
    let s = u64_to_string(n);
    group_digits(s.as_str())
}

/// Each leftmost, non-overlapping occurrence of `from` in `s` replaced by
/// `to`; left as is where `from` is empty.
pub open spec fn spec_replace(s: Seq<char>, from: Seq<char>, to: Seq<char>) -> Seq<char>
    decreases s.len(),
{
    if from.len() == 0 {
        s
    } else if s.len() < from.len() {
        s
    } else if s.take(from.len() as int) == from {
        to + spec_replace(s.skip(from.len() as int), from, to)
    } else {
        seq![s[0]] + spec_replace(s.drop_first(), from, to)
    }
}

/// Relies on `str::replace`: every non-overlapping occurrence of the
/// pattern, found left to right, replaced by the replacement.
#[verifier::external_body]
fn replace_all(s: &str, from: &str, to: &str) -> (r: String)
    requires
        from@.len() > 0,
    ensures
        r@ == spec_replace(s@, from@, to@),
{
    s.replace(from, to)
}

/// The overview badge text: the template with each placeholder replaced
/// by its aggregated number.
pub open spec fn spec_overview_svg(
    t: Seq<char>,
    name: Seq<char>,
    stars: u64,
    forks: u64,
    contributions: u64,
    lines_changed: u64,
    views: u64,
    repos: u64,
) -> Seq<char> {
    let t1 = spec_replace(t, "{{ name }}"@, name);
    let t2 = spec_replace(t1, "{{ stars }}"@, grouped(dec_str(stars as nat)));
    let t3 = spec_replace(t2, "{{ forks }}"@, grouped(dec_str(forks as nat)));
    let t4 = spec_replace(t3, "{{ contributions }}"@, grouped(dec_str(contributions as nat)));
    let t5 = spec_replace(t4, "{{ lines_changed }}"@, grouped(dec_str(lines_changed as nat)));
    let t6 = spec_replace(t5, "{{ views }}"@, grouped(dec_str(views as nat)));
    spec_replace(t6, "{{ repos }}"@, grouped(dec_str(repos as nat)))
}

/// A language's display color, with black standing in where none is set.
pub open spec fn color_of(c: Option<Seq<char>>) -> Seq<char> {
    match c {
        Some(s) => s,
        None => "#000000"@,
    }
}

/// Three digits, zero padded.
pub open spec fn dec3(f: int) -> Seq<char> {
    seq![digit_char(f / 100 % 10), digit_char(f / 10 % 10), digit_char(f % 10)]
}

/// Two digits, zero padded.
pub open spec fn dec2(f: int) -> Seq<char> {
    seq![digit_char(f / 10 % 10), digit_char(f % 10)]
}

/// A percentage stored in thousandths, rendered with three decimals.
pub open spec fn percent3(pm: u64) -> Seq<char> {
    dec_str((pm / 1000) as nat) + seq!['.'] + dec3((pm % 1000) as int)
}

/// A percentage stored in thousandths, rendered with two decimals, the
/// third rounded half up.
pub open spec fn percent2(pm: u64) -> Seq<char> {
    let r2 = (pm + 5) / 10;
    dec_str((r2 / 100) as nat) + seq!['.'] + dec2((r2 % 100) as int)
}

/// Renders `percent3`.
fn percent3_exec(pm: u64) -> (r: String)
    ensures
        r@ == percent3(pm),
{
    let mut s = u64_to_string(pm / 1000);
    s.append(".");
    let f = pm % 1000;
    s.append(crate::text::digit_str(f / 100 % 10));
    s.append(crate::text::digit_str(f / 10 % 10));
    s.append(crate::text::digit_str(f % 10));
    proof {
        reveal_strlit(".");
        assert(s@ =~= percent3(pm));
    }
    s
}

/// Renders `percent2`.
fn percent2_exec(pm: u64) -> (r: String)
    ensures
        r@ == percent2(pm),
{
    let r2 = pm / 10 + (if pm % 10 >= 5 { 1u64 } else { 0u64 });
    proof {
        assert(r2 == ((pm + 5) / 10) as u64);
    }
    let mut s = u64_to_string(r2 / 100);
    s.append(".");
    let f = r2 % 100;
    s.append(crate::text::digit_str(f / 10 % 10));
    s.append(crate::text::digit_str(f % 10));
    proof {
        reveal_strlit(".");
        assert(s@ =~= percent2(pm));
    }
    s
}

/// One bar segment of the languages badge.
pub open spec fn progress_item(e: (Seq<char>, LangIV)) -> Seq<char> {
    "<span style=\"background-color: "@ + color_of(e.1.color) + ";width: "@ + percent3(
        e.1.percent_milli,
    ) + "%;\" class=\"progress-item\"></span>"@
}

/// The bar segments of the listed languages, in order.
pub open spec fn progress_items(s: Seq<(Seq<char>, LangIV)>) -> Seq<char>
    decreases s.len(),
{
    if s.len() == 0 {
        Seq::empty()
    } else {
        progress_items(s.drop_last()) + progress_item(s.last())
    }
}

/// One list row of the languages badge, with its animation delay.
pub open spec fn list_item(e: (Seq<char>, LangIV), delay: u64) -> Seq<char> {
    "\n<li style=\"animation-delay: "@ + dec_str(delay as nat)
        + "ms;\">\n<svg xmlns=\"http://www.w3.org/2000/svg\" class=\"octicon\" style=\"fill:"@
        + color_of(e.1.color)
        + ";\"\nviewBox=\"0 0 16 16\" version=\"1.1\" width=\"16\" height=\"16\"><path\nfill-rule=\"evenodd\" d=\"M8 4a4 4 0 100 8 4 4 0 000-8z\"></path></svg>\n<span class=\"lang\">"@
        + e.0 + "</span>\n<span class=\"percent\">"@ + percent2(e.1.percent_milli)
        + "%</span>\n</li>\n"@
}

/// The list rows of the listed languages, in order, delays stepping by
/// 150 ms.
pub open spec fn list_items(s: Seq<(Seq<char>, LangIV)>) -> Seq<char>
    decreases s.len(),
{
    if s.len() == 0 {
        Seq::empty()
    } else {
        list_items(s.drop_last()) + list_item(s.last(), ((s.len() - 1) * 150) as u64)
    }
}

/// The languages badge text for a given ordering of the report's
/// languages: the largest languages, capped, drawn as a bar and a list.
pub open spec fn spec_languages_svg(t: Seq<char>, s: Seq<(Seq<char>, LangIV)>) -> Seq<char> {
    let shown = if s.len() <= MAX_LANGUAGES as int {
        s
    } else {
        s.take(MAX_LANGUAGES as int)
    };
    let t1 = spec_replace(t, "{{ progress }}"@, progress_items(shown));
    spec_replace(t1, "{{ lang_list }}"@, list_items(shown))
}

/// Ordered by weighted size, largest first.
pub open spec fn sorted_desc(s: Seq<(Seq<char>, LangIV)>) -> bool {
    forall|i: int, j: int| 0 <= i < j < s.len() ==> s[i].1.size >= s[j].1.size
}

/// A copy of one language row, views preserved.
fn clone_lang_entry(e: &(String, LanguageInfo)) -> (r: (String, LanguageInfo))
    ensures
        r.0@ == e.0@,
        r.1@ == e.1@,
{
    let color: Option<String> = match &e.1.color {
        Some(c) => Some(c.clone()),
        None => None,
    };
    (
        e.0.clone(),
        LanguageInfo {
            size: e.1.size,
            occurrences: e.1.occurrences,
            color,
            percent_milli: e.1.percent_milli,
        },
    )
}

/// The report's languages ordered by weighted size, largest first: the
/// same rows, reordered.
pub fn sorted_languages(stats: &Stats) -> (r: Vec<(String, LanguageInfo)>)
    ensures
        sorted_desc(langs_view(r@)),
        langs_view(r@).to_multiset() == langs_view(stats.languages@).to_multiset(),
{
    broadcast use vstd::seq_lib::group_to_multiset_ensures;
    broadcast use vstd::multiset::group_multiset_axioms;

    let mut work: Vec<(String, LanguageInfo)> = Vec::new();
    proof {
        assert(langs_view(work@) =~= langs_view(stats.languages@).take(0));
    }
    let mut i: usize = 0;
    while i < stats.languages.len()
        invariant
            i <= stats.languages@.len(),
            work@.len() == i,
            langs_view(work@) == langs_view(stats.languages@).take(i as int),
        decreases stats.languages@.len() - i,
    {
        let entry = clone_lang_entry(&stats.languages[i]);
        work.push(entry);
        proof {
            assert(langs_view(work@) =~= langs_view(stats.languages@).take(i as int + 1));
        }
        i += 1;
    }
    proof {
        assert(langs_view(stats.languages@).take(stats.languages@.len() as int) =~= langs_view(
            stats.languages@,
        ));
    }
    let mut out: Vec<(String, LanguageInfo)> = Vec::new();
    proof {
        assert(langs_view(out@) =~= Seq::<(Seq<char>, LangIV)>::empty());
        assert(langs_view(out@).to_multiset().add(langs_view(work@).to_multiset())
            =~= langs_view(stats.languages@).to_multiset());
    }
    while work.len() > 0
        invariant
            langs_view(out@).to_multiset().add(langs_view(work@).to_multiset()) == langs_view(
                stats.languages@,
            ).to_multiset(),
            sorted_desc(langs_view(out@)),
            forall|a: int, b: int|
                0 <= a < out@.len() && 0 <= b < work@.len() ==> langs_view(out@)[a].1.size
                    >= langs_view(work@)[b].1.size,
        decreases work@.len(),
    {
        let mut m: usize = 0;
        let mut k: usize = 1;
        while k < work.len()
            invariant
                m < k <= work@.len() || (k <= work@.len() && m == 0),
                m < work@.len(),
                work@.len() > 0,
                forall|j: int|
                    0 <= j < k ==> work@[m as int].1.size >= (#[trigger] work@[j]).1.size,
            decreases work@.len() - k,
        {
            if work[k].1.size > work[m].1.size {
                m = k;
            }
            k += 1;
        }
        let ghost pre_work = langs_view(work@);
        let ghost pre_out = langs_view(out@);
        let e = work.remove(m);
        proof {
            vstd::seq_lib::to_multiset_remove::<(Seq<char>, LangIV)>(pre_work, m as int);
            assert(langs_view(work@) =~= pre_work.remove(m as int));
        }
        out.push(e);
        proof {
            vstd::seq_lib::to_multiset_build::<(Seq<char>, LangIV)>(pre_out, pre_work[m as int]);
            assert(langs_view(out@) =~= pre_out.push(pre_work[m as int]));
            assert(pre_work.contains(pre_work[m as int]));
            vstd::seq_lib::to_multiset_contains::<(Seq<char>, LangIV)>(pre_work, pre_work[m as int]);
            assert(pre_work.to_multiset().count(pre_work[m as int]) > 0);
            assert(langs_view(out@).to_multiset().add(langs_view(work@).to_multiset())
                =~= langs_view(stats.languages@).to_multiset());
            assert forall|a: int, b: int|
                0 <= a < out@.len() && 0 <= b < work@.len() implies langs_view(
                out@,
            )[a].1.size >= langs_view(work@)[b].1.size by {
                let b0 = if b < m as int {
                    b
                } else {
                    b + 1
                };
                assert(pre_work.remove(m as int)[b] == pre_work[b0]);
                assert(pre_work[m as int].1.size >= pre_work[b0].1.size);
            }
        }
    }
    proof {
        assert(langs_view(work@) =~= Seq::<(Seq<char>, LangIV)>::empty());
        assert(langs_view(out@).to_multiset().add(langs_view(work@).to_multiset())
            =~= langs_view(out@).to_multiset());
    }
    out
}

/// The badge renderer.
pub struct SvgGenerator;

impl SvgGenerator {
    /// Substitutes the report's aggregated numbers into the overview
    /// template, as `spec_overview_svg` says; lines added and deleted
    /// render as one combined count.
    pub fn generate_overview(stats: &Stats, template: &str) -> (r: String)
        ensures
            r@ == spec_overview_svg(
                template@,
                stats.name@,
                stats.total_stars,
                stats.total_forks,
                stats.total_contributions,
                sat_add64(stats.lines_added, stats.lines_deleted),
                stats.total_views,
                stats.total_repos as u64,
            ),
    {
        proof {
            reveal_strlit("{{ name }}");
            reveal_strlit("{{ stars }}");
            reveal_strlit("{{ forks }}");
            reveal_strlit("{{ contributions }}");
            reveal_strlit("{{ lines_changed }}");
            reveal_strlit("{{ views }}");
            reveal_strlit("{{ repos }}");
        }
        let t1 = replace_all(template, "{{ name }}", stats.name.as_str());
        let stars = format_number(stats.total_stars);
        let t2 = replace_all(t1.as_str(), "{{ stars }}", stars.as_str());
        let forks = format_number(stats.total_forks);
        let t3 = replace_all(t2.as_str(), "{{ forks }}", forks.as_str());
        let contribs = format_number(stats.total_contributions);
        let t4 = replace_all(t3.as_str(), "{{ contributions }}", contribs.as_str());
        let lines = format_number(sat_add_u64(stats.lines_added, stats.lines_deleted));
        let t5 = replace_all(t4.as_str(), "{{ lines_changed }}", lines.as_str());
        let views = format_number(stats.total_views);
        let t6 = replace_all(t5.as_str(), "{{ views }}", views.as_str());
        let repos = format_number(stats.total_repos as u64);
        let t7 = replace_all(t6.as_str(), "{{ repos }}", repos.as_str());
        t7
    }

    /// Renders the languages badge from the report: its languages ordered
    /// by weighted size, the largest first, capped at `MAX_LANGUAGES`,
    /// substituted into the template as `spec_languages_svg` says.
    pub fn generate_languages(stats: &Stats, template: &str) -> (r: String)
        ensures
            exists|s: Seq<(Seq<char>, LangIV)>|
                sorted_desc(s) && #[trigger] s.to_multiset() == langs_view(
                    stats.languages@,
                ).to_multiset() && r@ == spec_languages_svg(template@, s),
    {
        let sorted = sorted_languages(stats);
        let ghost sv = langs_view(sorted@);
        let shown_len = if sorted.len() <= MAX_LANGUAGES {
            sorted.len()
        } else {
            MAX_LANGUAGES
        };
        let ghost shown = if sv.len() <= MAX_LANGUAGES as int {
            sv
        } else {
            sv.take(MAX_LANGUAGES as int)
        };
        proof {
            assert(shown =~= sv.take(shown_len as int));
            assert(sv.take(0) =~= Seq::<(Seq<char>, LangIV)>::empty());
        }
        let mut progress = String::new();
        let mut lang_list = String::new();
        proof {
            assert(progress@ =~= progress_items(sv.take(0)));
            assert(lang_list@ =~= list_items(sv.take(0)));
        }
        let mut i: usize = 0;
        while i < shown_len
            invariant
                shown_len <= sorted@.len(),
                shown_len <= MAX_LANGUAGES,
                i <= shown_len,
                sv == langs_view(sorted@),
                sv.len() == sorted@.len(),
                progress@ == progress_items(sv.take(i as int)),
                lang_list@ == list_items(sv.take(i as int)),
            decreases shown_len - i,
        {
            let e = &sorted[i];
            proof {
                assert(sv.take(i as int + 1).drop_last() =~= sv.take(i as int));
                assert(sv.take(i as int + 1).last() == sv[i as int]);
                reveal_strlit("#000000");
            }
            let color: String = match &e.1.color {
                Some(c) => c.clone(),
                None => String::from_str("#000000"),
            };
            progress.append("<span style=\"background-color: ");
            progress.append(color.as_str());
            progress.append(";width: ");
            let p3 = percent3_exec(e.1.percent_milli);
            progress.append(p3.as_str());
            progress.append("%;\" class=\"progress-item\"></span>");
            proof {
                assert(progress@ =~= progress_items(sv.take(i as int + 1)));
            }
            lang_list.append("\n<li style=\"animation-delay: ");
            let delay = u64_to_string((i as u64) * 150);
            lang_list.append(delay.as_str());
            lang_list.append(
                "ms;\">\n<svg xmlns=\"http://www.w3.org/2000/svg\" class=\"octicon\" style=\"fill:",
            );
            lang_list.append(color.as_str());
            lang_list.append(
                ";\"\nviewBox=\"0 0 16 16\" version=\"1.1\" width=\"16\" height=\"16\"><path\nfill-rule=\"evenodd\" d=\"M8 4a4 4 0 100 8 4 4 0 000-8z\"></path></svg>\n<span class=\"lang\">",
            );
            lang_list.append(e.0.as_str());
            lang_list.append("</span>\n<span class=\"percent\">");
            let p2 = percent2_exec(e.1.percent_milli);
            lang_list.append(p2.as_str());
            lang_list.append("%</span>\n</li>\n");
            proof {
                assert(lang_list@ =~= list_items(sv.take(i as int + 1)));
            }
            i += 1;
        }
        proof {
            reveal_strlit("{{ progress }}");
            reveal_strlit("{{ lang_list }}");
        }
        let t1 = replace_all(template, "{{ progress }}", progress.as_str());
        let out = replace_all(t1.as_str(), "{{ lang_list }}", lang_list.as_str());
        proof {
            assert(out@ == spec_languages_svg(template@, sv));
            assert(sv.to_multiset() == langs_view(stats.languages@).to_multiset());
        }
        out
    }
}

} // verus!
