//! Tests on the run-level logic: collecting and ordering results, the
//! report's counts and phrases, the exit status, the configuration and
//! which configuration file applies, and applying fixes safely.

use rubyfast::analyzer::{AnalysisResult, ParseError};
use rubyfast::config::{find_config_file, Config, ConfigFileName};
use rubyfast::file_traverser::{collect_results, str_lt, TraversalResult};
use rubyfast::fix::{apply_fixes, fixed_source, Fix};
use rubyfast::offense::{Offense, OffenseKind};
use rubyfast::output::{
    autocorrect_note, count_phrase, exit_code, fix_summary_tail, fixes_of, group_by_rule,
    number_text, offense_message, rule_header, statistics, FixSummaryTail, Statistics,
};

fn analysis(path: &str, offenses: Vec<Offense>) -> AnalysisResult {
    AnalysisResult { path: path.to_string(), offenses }
}

fn parse_error(path: &str, message: &str) -> ParseError {
    ParseError { path: path.to_string(), message: message.to_string() }
}

fn run(results: Vec<AnalysisResult>) -> TraversalResult {
    let n = results.len();
    TraversalResult { results, parse_errors: vec![], files_inspected: n }
}

#[test]
fn collect_results_sorts_by_path_and_splits_errors() {
    let outcomes = vec![
        Ok(analysis("b.rb", vec![Offense::new(OffenseKind::GsubVsTr, 1)])),
        Err(parse_error("z.rb", "bad")),
        Ok(analysis("a.rb", vec![])),
        Err(parse_error("c.rb", "worse")),
    ];
    let r = collect_results(outcomes);
    let paths: Vec<&str> = r.results.iter().map(|a| a.path.as_str()).collect();
    assert_eq!(paths, vec!["a.rb", "b.rb"]);
    let err_paths: Vec<&str> = r.parse_errors.iter().map(|e| e.path.as_str()).collect();
    assert_eq!(err_paths, vec!["c.rb", "z.rb"]);
    assert_eq!(r.parse_errors[0].message, "worse");
    assert_eq!(r.files_inspected, 4);
}

#[test]
fn collect_results_keeps_equal_paths_in_arrival_order() {
    let outcomes = vec![
        Ok(analysis("same.rb", vec![Offense::new(OffenseKind::GsubVsTr, 1)])),
        Ok(analysis("same.rb", vec![Offense::new(OffenseKind::SortVsSortBy, 2)])),
        Ok(analysis("a.rb", vec![])),
    ];
    let r = collect_results(outcomes);
    assert_eq!(r.results[0].path, "a.rb");
    assert_eq!(r.results[1].offenses[0].kind, OffenseKind::GsubVsTr);
    assert_eq!(r.results[2].offenses[0].kind, OffenseKind::SortVsSortBy);
}

#[test]
fn str_lt_is_byte_lexicographic() {
    assert!(str_lt("a.rb", "b.rb"));
    assert!(str_lt("lib", "lib/a.rb"));
    assert!(!str_lt("b.rb", "a.rb"));
    assert!(!str_lt("a.rb", "a.rb"));
    assert!(str_lt("Z.rb", "a.rb"));
}

#[test]
fn number_text_writes_decimal() {
    assert_eq!(number_text(0), "0");
    assert_eq!(number_text(7), "7");
    assert_eq!(number_text(10), "10");
    assert_eq!(number_text(1234), "1234");
}

#[test]
fn count_phrase_pluralizes() {
    assert_eq!(count_phrase(1, "file", "inspected"), "1 file inspected");
    assert_eq!(count_phrase(3, "offense", "detected"), "3 offenses detected");
    assert_eq!(count_phrase(0, "offense", "detected"), "0 offenses detected");
}

#[test]
fn statistics_counts_fixable_offenses() {
    let result = run(vec![
        analysis(
            "a.rb",
            vec![
                Offense::new(OffenseKind::ForLoopVsEach, 1),
                Offense::with_fix(OffenseKind::GsubVsTr, 2, Fix::single(0, 1, "x")),
            ],
        ),
        analysis("b.rb", vec![Offense::with_fix(OffenseKind::SelectFirstVsDetect, 3, Fix::single(0, 1, "y"))]),
    ]);
    let s = statistics(&result);
    assert_eq!(s, Statistics { files: 2, offenses: 3, fixable: 2, parse_errors: 0 });
}

#[test]
fn fix_summary_tail_prefers_skipped_files() {
    let s = Statistics { files: 2, offenses: 5, fixable: 3, parse_errors: 0 };
    assert_eq!(fix_summary_tail(&s, 1), FixSummaryTail::SkippedFiles(1));
    assert_eq!(fix_summary_tail(&s, 0), FixSummaryTail::Unfixable(2));
    let all_fixed = Statistics { files: 2, offenses: 3, fixable: 3, parse_errors: 0 };
    assert_eq!(fix_summary_tail(&all_fixed, 0), FixSummaryTail::Nothing);
}

#[test]
fn exit_code_reflects_remaining_offenses() {
    let clean = run(vec![analysis("a.rb", vec![])]);
    assert_eq!(exit_code(&clean, false), 0);
    assert_eq!(exit_code(&clean, true), 0);

    let fixable = run(vec![analysis(
        "a.rb",
        vec![Offense::with_fix(OffenseKind::GsubVsTr, 1, Fix::single(0, 1, "x"))],
    )]);
    assert_eq!(exit_code(&fixable, false), 1);
    assert_eq!(exit_code(&fixable, true), 0);

    let unfixable = run(vec![analysis("a.rb", vec![Offense::new(OffenseKind::ForLoopVsEach, 1)])]);
    assert_eq!(exit_code(&unfixable, true), 1);
}

#[test]
fn group_by_rule_orders_kinds_canonically() {
    let result = run(vec![
        analysis(
            "a.rb",
            vec![Offense::new(OffenseKind::GsubVsTr, 4), Offense::new(OffenseKind::ShuffleFirstVsSample, 2)],
        ),
        analysis("b.rb", vec![Offense::new(OffenseKind::GsubVsTr, 9)]),
    ]);
    let groups = group_by_rule(&result);
    assert_eq!(groups.len(), 2);
    assert_eq!(groups[0].0, OffenseKind::ShuffleFirstVsSample);
    assert_eq!(groups[0].1, vec![("a.rb".to_string(), 2)]);
    assert_eq!(groups[1].0, OffenseKind::GsubVsTr);
    assert_eq!(groups[1].1, vec![("a.rb".to_string(), 4), ("b.rb".to_string(), 9)]);
}

#[test]
fn fixes_of_keeps_only_offenses_with_fixes() {
    let a = analysis(
        "a.rb",
        vec![
            Offense::new(OffenseKind::ForLoopVsEach, 1),
            Offense::with_fix(OffenseKind::GsubVsTr, 2, Fix::single(3, 7, "tr")),
        ],
    );
    let fixes = fixes_of(&a);
    assert_eq!(fixes.len(), 1);
    assert_eq!(fixes[0].replacements[0].start, 3);
    assert_eq!(fixes[0].replacements[0].text, "tr");
}

#[test]
fn from_speedups_disables_only_false_known_keys() {
    let speedups = vec![
        ("gsub_vs_tr".to_string(), false),
        ("for_loop_vs_each".to_string(), true),
        ("made_up_rule".to_string(), false),
    ];
    let config = Config::from_speedups(&speedups, vec!["vendor/**/*.rb".to_string()]);
    assert!(!config.is_enabled(OffenseKind::GsubVsTr));
    assert!(config.is_enabled(OffenseKind::ForLoopVsEach));
    assert!(config.is_enabled(OffenseKind::SortVsSortBy));
    assert_eq!(config.exclude_patterns, vec!["vendor/**/*.rb".to_string()]);
}

#[test]
fn find_config_file_prefers_nearest_then_rubyfast() {
    assert_eq!(find_config_file(&[]), None);
    assert_eq!(find_config_file(&[(false, false), (false, false)]), None);
    assert_eq!(find_config_file(&[(false, true), (true, false)]), Some((0, ConfigFileName::Fasterer)));
    assert_eq!(find_config_file(&[(false, false), (true, true)]), Some((1, ConfigFileName::Rubyfast)));
    assert_eq!(ConfigFileName::Rubyfast.file_name(), ".rubyfast.yml");
    assert_eq!(ConfigFileName::Fasterer.file_name(), ".fasterer.yml");
}

#[test]
fn apply_fixes_orders_replacements_by_start() {
    let fixes = vec![Fix::single(0, 1, "A"), Fix::single(4, 5, "E")];
    assert_eq!(apply_fixes(b"abcde", &fixes), (b"AbcdE".to_vec(), 2));
    let reversed = vec![Fix::single(4, 5, "E"), Fix::single(0, 1, "A")];
    assert_eq!(apply_fixes(b"abcde", &reversed), (b"AbcdE".to_vec(), 2));
}

#[test]
fn apply_fixes_encodes_text_as_utf8() {
    let fixes = vec![Fix::single(1, 2, "é")];
    assert_eq!(apply_fixes(b"abc", &fixes), ("aéc".as_bytes().to_vec(), 1));
}

#[test]
fn fix_with_a_reversed_range_is_skipped_whole() {
    let fixes = vec![Fix::two(1, 3, "x", 5, 4, ""), Fix::single(0, 1, "z")];
    assert_eq!(apply_fixes(b"abcdef", &fixes), (b"zbcdef".to_vec(), 1));
}

#[test]
fn a_fix_is_applied_whole_or_not_at_all() {
    let fixes = vec![Fix::two(0, 3, "A", 6, 9, "B"), Fix::single(8, 11, "C")];
    let (fixed, n) = apply_fixes(b"foo.bar.baz", &fixes);
    assert_eq!(fixed, b"foo.bar.C".to_vec());
    assert_eq!(n, 1);
    // Without the clash both fixes are applied, whatever their order.
    let a = vec![Fix::two(0, 3, "A", 4, 7, "B"), Fix::single(8, 11, "C")];
    let b = vec![Fix::single(8, 11, "C"), Fix::two(4, 7, "B", 0, 3, "A")];
    assert_eq!(apply_fixes(b"foo.bar.baz", &a), (b"A.B.C".to_vec(), 3));
    assert_eq!(apply_fixes(b"foo.bar.baz", &b), (b"A.B.C".to_vec(), 3));
}

#[test]
fn apply_fixes_counts_replacements_applied() {
    let overlapping = vec![Fix::single(2, 6, "XX"), Fix::single(4, 8, "YY")];
    assert_eq!(apply_fixes(b"abcdefgh", &overlapping), (b"abcdYY".to_vec(), 1));
    let map_flatten = vec![Fix::two(4, 7, "flat_map", 19, 30, "")];
    assert_eq!(
        apply_fixes(b"arr.map { |x| [x] }.flatten(1)", &map_flatten),
        (b"arr.flat_map { |x| [x] }".to_vec(), 2)
    );
    assert_eq!(apply_fixes(b"abc", &[]), (b"abc".to_vec(), 0));
}

#[test]
fn fixed_source_keeps_valid_result() {
    let source = b"x = [1, 2].shuffle.first\n";
    let fixes = vec![Fix::single(11, 24, "sample")];
    assert_eq!(fixed_source(source, &fixes), Some((b"x = [1, 2].sample\n".to_vec(), 1)));
}

#[test]
fn fixed_source_refuses_invalid_result() {
    let source = b"def foo\nend\n";
    let fixes = vec![Fix::single(8, 11, "")];
    assert_eq!(fixed_source(source, &fixes), None);
}

#[test]
fn offense_message_tags_fixable_offenses() {
    let plain = Offense::new(OffenseKind::ForLoopVsEach, 1);
    assert_eq!(offense_message(&plain), "For loop is slower than using each");
    let fixable = Offense::with_fix(OffenseKind::ForLoopVsEach, 1, Fix::single(0, 1, "x"));
    assert_eq!(offense_message(&fixable), "For loop is slower than using each (fixable)");
}

#[test]
fn rule_header_counts_offenses() {
    assert_eq!(
        rule_header(OffenseKind::FetchWithArgumentVsBlock, 3),
        "Hash#fetch with second argument is slower than Hash#fetch with block. (3 offenses)"
    );
    assert_eq!(
        rule_header(OffenseKind::ForLoopVsEach, 1),
        "For loop is slower than using each. (1 offense)"
    );
}

#[test]
fn autocorrect_note_only_when_something_is_fixable() {
    let some = Statistics { files: 22, offenses: 41, fixable: 21, parse_errors: 0 };
    assert_eq!(
        autocorrect_note(&some),
        Some("21 offenses autocorrectable (run rubyfast --fix)".to_string())
    );
    let none = Statistics { files: 1, offenses: 2, fixable: 0, parse_errors: 0 };
    assert_eq!(autocorrect_note(&none), None);
}

#[test]
fn insertion_at_the_start_of_a_replaced_range_is_kept() {
    let fixes = vec![Fix::single(3, 5, "X"), Fix::single(3, 3, "Y")];
    assert_eq!(apply_fixes(b"abcdefgh", &fixes), (b"abcYXfgh".to_vec(), 2));
    let reordered = vec![Fix::single(3, 3, "Y"), Fix::single(3, 5, "X")];
    assert_eq!(apply_fixes(b"abcdefgh", &reordered), (b"abcYXfgh".to_vec(), 2));
    // The same range twice clashes: only the first fix is applied.
    let same = vec![Fix::single(3, 5, "X"), Fix::single(3, 5, "Z")];
    assert_eq!(apply_fixes(b"abcdefgh", &same), (b"abcXfgh".to_vec(), 1));
}
