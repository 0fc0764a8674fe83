//! Tests on the library's plain data: offense kinds, fixes, the
//! configuration, the report's counts and phrases, and line numbers.

use rubyfast::analyzer::AnalysisResult;
use rubyfast::ast_helpers::{byte_offset_to_line, compute_newline_positions};
use rubyfast::config::Config;
use rubyfast::file_traverser::TraversalResult;
use rubyfast::fix::{apply_fixes, verify_syntax, Fix};
use rubyfast::offense::{Offense, OffenseKind};
use rubyfast::output::{filter_unfixable, pluralize};

fn make_result(offenses: Vec<Offense>) -> TraversalResult {
    TraversalResult {
        results: vec![AnalysisResult { path: "test.rb".to_string(), offenses }],
        parse_errors: vec![],
        files_inspected: 1,
    }
}

#[test]
fn all_returns_19_variants() {
    assert_eq!(OffenseKind::all().len(), 19);
}

#[test]
fn config_key_roundtrips_via_from_config_key() {
    for kind in OffenseKind::all().iter() {
        let key = kind.config_key();
        let restored = OffenseKind::from_config_key(key);
        assert_eq!(restored, Some(*kind), "roundtrip failed for {}", key);
    }
}

#[test]
fn from_config_key_returns_none_for_unknown() {
    assert_eq!(OffenseKind::from_config_key("nonexistent"), None);
}

#[test]
fn explanation_is_non_empty_for_all() {
    for kind in OffenseKind::all().iter() {
        let explanation = kind.explanation();
        assert!(!explanation.is_empty(), "empty explanation for {:?}", kind);
    }
}

#[test]
fn display_matches_config_key() {
    for kind in OffenseKind::all().iter() {
        assert_eq!(kind.to_string(), kind.config_key());
    }
}

#[test]
fn offense_new_has_no_fix() {
    let offense = Offense::new(OffenseKind::GsubVsTr, 42);
    assert_eq!(offense.kind, OffenseKind::GsubVsTr);
    assert_eq!(offense.line, 42);
    assert!(offense.fix.is_none());
}

#[test]
fn offense_with_fix_has_fix() {
    let fix = Fix::single(0, 5, "hello");
    let offense = Offense::with_fix(OffenseKind::ForLoopVsEach, 10, fix);
    assert_eq!(offense.kind, OffenseKind::ForLoopVsEach);
    assert_eq!(offense.line, 10);
    assert!(offense.fix.is_some());
}

#[test]
fn single_replacement() {
    let source = b"hello world";
    let fix = Fix::single(6, 11, "rust");
    let (result, _) = apply_fixes(source, &[fix]);
    assert_eq!(result, b"hello rust");
}

#[test]
fn multiple_non_overlapping() {
    let source = b"foo.bar.baz";
    let fixes = vec![Fix::single(0, 3, "qux"), Fix::single(8, 11, "quux")];
    let (result, _) = apply_fixes(source, &fixes);
    assert_eq!(result, b"qux.bar.quux");
}

#[test]
fn overlapping_skipped() {
    let source = b"abcdefgh";
    let fixes = vec![
        Fix::single(2, 6, "XX"), // replace cdef with XX
        Fix::single(4, 8, "YY"), // overlaps — should be skipped
    ];
    // Because we sort descending, 4..8 is processed first, then 2..6 overlaps
    // Actually: sorted descending by start: 4..8 first (start=4), then 2..6 (start=2)
    // 4..8 replaces "efgh" -> "YY", result = "abcdYY", last_start=4
    // 2..6 has end=6 > last_start=4, so it's skipped
    let (result, _) = apply_fixes(source, &fixes);
    assert_eq!(result, b"abcdYY");
}

#[test]
fn verify_valid_ruby() {
    assert!(verify_syntax(b"x = 1 + 2"));
}

#[test]
fn verify_invalid_ruby() {
    assert!(!verify_syntax(b"def def def"));
}

#[test]
fn two_replacements_in_one_fix() {
    let source = b"arr.map { |x| [x] }.flatten(1)";
    // Rename .map -> .flat_map and delete .flatten(1)
    let fix = Fix::two(
        4, 7, "flat_map", // "map" -> "flat_map"
        19, 30, "", // delete ".flatten(1)"
    );
    let (result, _) = apply_fixes(source, &[fix]);
    assert_eq!(result, b"arr.flat_map { |x| [x] }");
}

#[test]
fn apply_fixes_empty_fixes() {
    let source = b"hello world";
    let (result, _) = apply_fixes(source, &[]);
    assert_eq!(result, source);
}

#[test]
fn apply_fixes_out_of_bounds_skipped() {
    let source = b"short";
    let fix = Fix::single(10, 20, "big");
    let (result, _) = apply_fixes(source, &[fix]);
    assert_eq!(result, b"short");
}

#[test]
fn default_config_enables_all() {
    let config = Config::default();
    for kind in OffenseKind::all().iter() {
        assert!(config.is_enabled(*kind));
    }
}

#[test]
fn pluralize_singular() {
    assert_eq!(pluralize("file", 1), "file");
}

#[test]
fn pluralize_plural() {
    assert_eq!(pluralize("file", 0), "files");
    assert_eq!(pluralize("offense", 2), "offenses");
}

#[test]
fn filter_unfixable_keeps_only_no_fix() {
    let offenses = vec![
        Offense::new(OffenseKind::GsubVsTr, 1),
        Offense::with_fix(OffenseKind::ForLoopVsEach, 2, Fix::single(0, 3, "x")),
        Offense::new(OffenseKind::SortVsSortBy, 3),
    ];
    let result = make_result(offenses);
    let filtered = filter_unfixable(&result);
    assert_eq!(filtered.results[0].offenses.len(), 2);
    assert!(filtered.results[0].offenses.iter().all(|o| o.fix.is_none()));
}

#[test]
fn filter_unfixable_empty_when_all_fixable() {
    let offenses = vec![Offense::with_fix(
        OffenseKind::ForLoopVsEach,
        1,
        Fix::single(0, 3, "x"),
    )];
    let result = make_result(offenses);
    let filtered = filter_unfixable(&result);
    assert_eq!(filtered.results[0].offenses.len(), 0);
}

#[test]
fn traversal_result_total_offenses() {
    let result = TraversalResult {
        results: vec![
            AnalysisResult {
                path: "a.rb".to_string(),
                offenses: vec![
                    Offense::new(OffenseKind::GsubVsTr, 1),
                    Offense::new(OffenseKind::GsubVsTr, 2),
                ],
            },
            AnalysisResult {
                path: "b.rb".to_string(),
                offenses: vec![Offense::new(
                    OffenseKind::GsubVsTr,
                    1,
                )],
            },
        ],
        parse_errors: vec![],
        files_inspected: 2,
    };
    assert_eq!(result.total_offenses(), 3);
    assert!(result.has_offenses());
}

#[test]
fn traversal_result_no_offenses() {
    let result = TraversalResult {
        results: vec![],
        parse_errors: vec![],
        files_inspected: 0,
    };
    assert_eq!(result.total_offenses(), 0);
    assert!(!result.has_offenses());
}

#[test]
fn byte_offset_to_line_works() {
    let source = b"line1\nline2\nline3";
    let positions = compute_newline_positions(source);
    assert_eq!(byte_offset_to_line(&positions, 0), 1);
    assert_eq!(byte_offset_to_line(&positions, 5), 1);
    assert_eq!(byte_offset_to_line(&positions, 6), 2);
    assert_eq!(byte_offset_to_line(&positions, 12), 3);
}
