//! What the report shows: phrases with counts, offenses grouped by rule,
//! the unfixable offenses left after `--fix`, the summary's parts, and the
//! exit status. Printing (with colors) is left to the caller.

use vstd::prelude::*;

use crate::analyzer::AnalysisResult;
use crate::file_traverser::{spec_total, TraversalResult};
use crate::fix::Fix;
use crate::offense::{
    all_kinds, offense_views, spec_explanation, Offense, OffenseKind, OffenseView,
};

verus! {

/// `word` with an `s` appended unless `count` is one.
pub open spec fn spec_pluralize(word: Seq<char>, count: nat) -> Seq<char> {
    if count == 1 {
        word
    } else {
        word + "s"@
    }
}

/// The character of a decimal digit.
pub open spec fn digit_char(d: nat) -> char {
    if d == 0 {
        '0'
    } else if d == 1 {
        '1'
    } else if d == 2 {
        '2'
    } else if d == 3 {
        '3'
    } else if d == 4 {
        '4'
    } else if d == 5 {
        '5'
    } else if d == 6 {
        '6'
    } else if d == 7 {
        '7'
    } else if d == 8 {
        '8'
    } else {
        '9'
    }
}

/// The decimal representation of `n`, without leading zeros.
pub open spec fn decimal(n: nat) -> Seq<char>
    decreases n,
{
    if n < 10 {
        seq![digit_char(n)]
    } else {
        decimal(n / 10).push(digit_char(n % 10))
    }
}

/// `"{count} {word or words} {tail}"`.
pub open spec fn spec_count_phrase(count: nat, word: Seq<char>, tail: Seq<char>) -> Seq<char> {
    decimal(count) + " "@ + spec_pluralize(word, count) + " "@ + tail
}

/// Return `word`, or `word` with an `s` appended when `count` is not one.
pub fn pluralize(word: &str, count: usize) -> (r: String)
    ensures
        r@ == spec_pluralize(word@, count as nat),
{
    let mut r = String::from_str(word);
    if count != 1 {
        r.append("s");
    }
    r
}

fn digit_text(d: usize) -> (r: &'static str)
    requires
        d < 10,
    ensures
        r@ == seq![digit_char(d as nat)],
{
    proof {
        reveal_strlit("0");
        reveal_strlit("1");
        reveal_strlit("2");
        reveal_strlit("3");
        reveal_strlit("4");
        reveal_strlit("5");
        reveal_strlit("6");
        reveal_strlit("7");
        reveal_strlit("8");
        reveal_strlit("9");
    }
    let r = if d == 0 {
        "0"
    } else if d == 1 {
        "1"
    } else if d == 2 {
        "2"
    } else if d == 3 {
        "3"
    } else if d == 4 {
        "4"
    } else if d == 5 {
        "5"
    } else if d == 6 {
        "6"
    } else if d == 7 {
        "7"
    } else if d == 8 {
        "8"
    } else {
        "9"
    };
    assert(r@ =~= seq![digit_char(d as nat)]);
    r
}

/// The decimal representation of `n`.
pub fn number_text(n: usize) -> (r: String)
    ensures
        r@ == decimal(n as nat),
    decreases n,
{
    if n < 10 {
        String::from_str(digit_text(n))
    } else {
        let mut r = number_text(n / 10);
        r.append(digit_text(n % 10));
        r
    }
}

/// `"{count} {word or words} {tail}"`, such as `"3 files inspected"`.
pub fn count_phrase(count: usize, word: &str, tail: &str) -> (r: String)
    ensures
        r@ == spec_count_phrase(count as nat, word@, tail@),
{
    let mut r = number_text(count);
    r.append(" ");
    let p = pluralize(word, count);
    r.append(p.as_str());
    r.append(" ");
    r.append(tail);
    r
}

/// The offenses of a list without a fix, in order.
pub open spec fn unfixable_views(offs: Seq<OffenseView>) -> Seq<OffenseView>
    decreases offs.len(),
{
    if offs.len() == 0 {
        seq![]
    } else if offs.last().2 is None {
        unfixable_views(offs.drop_last()).push(offs.last())
    } else {
        unfixable_views(offs.drop_last())
    }
}

/// How many offenses of a list have a fix.
pub open spec fn fixable_count(offs: Seq<OffenseView>) -> nat
    decreases offs.len(),
{
    if offs.len() == 0 {
        0
    } else {
        fixable_count(offs.drop_last()) + if offs.last().2 is Some {
            1nat
        } else {
            0nat
        }
    }
}

/// How many offenses of a run have a fix.
pub open spec fn run_fixable(results: Seq<AnalysisResult>) -> nat
    decreases results.len(),
{
    if results.len() == 0 {
        0
    } else {
        run_fixable(results.drop_last()) + fixable_count(offense_views(results.last().offenses@))
    }
}

fn unfixable_offenses(offenses: &Vec<Offense>) -> (r: Vec<Offense>)
    ensures
        offense_views(r@) == unfixable_views(offense_views(offenses@)),
{
    let ghost v = offense_views(offenses@);
    let mut r: Vec<Offense> = Vec::new();
    let mut i: usize = 0;
    assert(v.take(0) =~= Seq::<OffenseView>::empty());
    while i < offenses.len()
        invariant
            i <= offenses@.len(),
            v == offense_views(offenses@),
            offense_views(r@) == unfixable_views(v.take(i as int)),
        decreases offenses@.len() - i,
    {
        assert(v.take(i + 1).drop_last() =~= v.take(i as int));
        assert(v.take(i + 1).last() == offenses@[i as int]@);
        if offenses[i].fix.is_none() {
            let d = offenses[i].duplicate();
            let ghost prev = r@;
            r.push(d);
            assert(offense_views(r@) =~= offense_views(prev).push(d@));
        }
        i = i + 1;
    }
    assert(v.take(i as int) =~= v);
    r
}

/// Build a traversal result containing only the offenses that have no
/// fix (what remains to report after `--fix`); parse errors are dropped.
pub fn filter_unfixable(result: &TraversalResult) -> (r: TraversalResult)
    ensures
        r.results@.len() == result.results@.len(),
        forall|i: int|
            0 <= i < r.results@.len() ==> (#[trigger] r.results@[i]).path@ == result.results@[i].path@
                && offense_views(r.results@[i].offenses@) == unfixable_views(
                offense_views(result.results@[i].offenses@),
            ),
        r.parse_errors@.len() == 0,
        r.files_inspected == result.files_inspected,
{
    let mut results: Vec<AnalysisResult> = Vec::new();
    let mut i: usize = 0;
    while i < result.results.len()
        invariant
            i <= result.results@.len(),
            results@.len() == i,
            forall|j: int|
                0 <= j < i ==> (#[trigger] results@[j]).path@ == result.results@[j].path@
                    && offense_views(results@[j].offenses@) == unfixable_views(
                    offense_views(result.results@[j].offenses@),
                ),
        decreases result.results@.len() - i,
    {
        let a = &result.results[i];
        let offenses = unfixable_offenses(&a.offenses);
        results.push(AnalysisResult { path: a.path.clone(), offenses });
        i = i + 1;
    }
    TraversalResult { results, parse_errors: Vec::new(), files_inspected: result.files_inspected }
}

/// The locations `(path, line)` of the offenses of kind `k` in one file.
pub open spec fn file_locations(path: Seq<char>, offs: Seq<OffenseView>, k: OffenseKind) -> Seq<
    (Seq<char>, usize),
>
    decreases offs.len(),
{
    if offs.len() == 0 {
        seq![]
    } else if offs.last().0 == k {
        file_locations(path, offs.drop_last(), k).push((path, offs.last().1))
    } else {
        file_locations(path, offs.drop_last(), k)
    }
}

/// The locations of the offenses of kind `k` over a run, file by file.
pub open spec fn kind_locations(results: Seq<AnalysisResult>, k: OffenseKind) -> Seq<
    (Seq<char>, usize),
>
    decreases results.len(),
{
    if results.len() == 0 {
        seq![]
    } else {
        kind_locations(results.drop_last(), k) + file_locations(
            results.last().path@,
            offense_views(results.last().offenses@),
            k,
        )
    }
}

/// The groups of a run by rule, for the kinds of `kinds` in order: each
/// kind with at least one offense and the locations of its offenses.
pub open spec fn groups(results: Seq<AnalysisResult>, kinds: Seq<OffenseKind>) -> Seq<
    (OffenseKind, Seq<(Seq<char>, usize)>),
>
    decreases kinds.len(),
{
    if kinds.len() == 0 {
        seq![]
    } else {
        let k = kinds.last();
        let locs = kind_locations(results, k);
        if locs.len() > 0 {
            groups(results, kinds.drop_last()).push((k, locs))
        } else {
            groups(results, kinds.drop_last())
        }
    }
}

/// The views of a list of groups.
pub open spec fn group_views(v: Seq<(OffenseKind, Vec<(String, usize)>)>) -> Seq<
    (OffenseKind, Seq<(Seq<char>, usize)>),
> {
    v.map_values(
        |g: (OffenseKind, Vec<(String, usize)>)|
            (g.0, g.1@.map_values(|l: (String, usize)| (l.0@, l.1))),
    )
}

/// The views of a list of locations.
pub open spec fn location_views(v: Seq<(String, usize)>) -> Seq<(Seq<char>, usize)> {
    v.map_values(|l: (String, usize)| (l.0@, l.1))
}

fn push_file_locations(out: &mut Vec<(String, usize)>, a: &AnalysisResult, kind: OffenseKind)
    ensures
        location_views(final(out)@) == location_views(old(out)@) + file_locations(
            a.path@,
            offense_views(a.offenses@),
            kind,
        ),
{
    let ghost v = offense_views(a.offenses@);
    let ghost base = location_views(out@);
    let mut i: usize = 0;
    assert(v.take(0) =~= Seq::<OffenseView>::empty());
    assert(location_views(out@) =~= base + file_locations(a.path@, v.take(0), kind));
    while i < a.offenses.len()
        invariant
            i <= a.offenses@.len(),
            v == offense_views(a.offenses@),
            location_views(out@) == base + file_locations(a.path@, v.take(i as int), kind),
        decreases a.offenses@.len() - i,
    {
        assert(v.take(i + 1).drop_last() =~= v.take(i as int));
        assert(v.take(i + 1).last() == a.offenses@[i as int]@);
        if a.offenses[i].kind == kind {
            let ghost prev = out@;
            out.push((a.path.clone(), a.offenses[i].line));
            assert(location_views(out@) =~= location_views(prev).push(
                (a.path@, a.offenses@[i as int].line),
            ));
        }
        i = i + 1;
    }
    assert(v.take(i as int) =~= v);
}

fn locations_of_kind(results: &Vec<AnalysisResult>, kind: OffenseKind) -> (r: Vec<(String, usize)>)
    ensures
        location_views(r@) == kind_locations(results@, kind),
{
    let mut out: Vec<(String, usize)> = Vec::new();
    let mut i: usize = 0;
    assert(location_views(out@) =~= kind_locations(results@.take(0), kind));
    while i < results.len()
        invariant
            i <= results@.len(),
            location_views(out@) == kind_locations(results@.take(i as int), kind),
        decreases results@.len() - i,
    {
        assert(results@.take(i + 1).drop_last() =~= results@.take(i as int));
        push_file_locations(&mut out, &results[i], kind);
        i = i + 1;
    }
    assert(results@.take(i as int) =~= results@);
    out
}

/// Group the offenses of a run by rule, rules in canonical order and
/// locations in file order; rules without offenses are left out.
pub fn group_by_rule(result: &TraversalResult) -> (r: Vec<(OffenseKind, Vec<(String, usize)>)>)
    ensures
        group_views(r@) == groups(result.results@, all_kinds()),
{
    let kinds = OffenseKind::all();
    let mut out: Vec<(OffenseKind, Vec<(String, usize)>)> = Vec::new();
    let mut i: usize = 0;
    assert(group_views(out@) =~= groups(result.results@, kinds@.take(0)));
    while i < kinds.len()
        invariant
            i <= kinds@.len(),
            kinds@ == all_kinds(),
            group_views(out@) == groups(result.results@, kinds@.take(i as int)),
        decreases kinds@.len() - i,
    {
        assert(kinds@.take(i + 1).drop_last() =~= kinds@.take(i as int));
        let k = kinds[i];
        let locs = locations_of_kind(&result.results, k);
        if locs.len() > 0 {
            let ghost prev = out@;
            let ghost lv = location_views(locs@);
            out.push((k, locs));
            assert(group_views(out@) =~= group_views(prev).push((k, lv)));
        }
        i = i + 1;
    }
    assert(kinds@.take(i as int) =~= kinds@);
    out
}

/// The fixes of a file's offenses, in order.
pub open spec fn fix_views(offs: Seq<OffenseView>) -> Seq<Seq<(usize, usize, Seq<char>)>>
    decreases offs.len(),
{
    if offs.len() == 0 {
        seq![]
    } else {
        match offs.last().2 {
            Some(f) => fix_views(offs.drop_last()).push(f),
            None => fix_views(offs.drop_last()),
        }
    }
}

/// The fixes carried by a file's offenses, in order.
pub fn fixes_of(analysis: &AnalysisResult) -> (r: Vec<Fix>)
    ensures
        r@.map_values(|f: Fix| f@) == fix_views(offense_views(analysis.offenses@)),
{
    let ghost v = offense_views(analysis.offenses@);
    let mut r: Vec<Fix> = Vec::new();
    let mut i: usize = 0;
    assert(v.take(0) =~= Seq::<OffenseView>::empty());
    assert(r@.map_values(|f: Fix| f@) =~= fix_views(v.take(0)));
    while i < analysis.offenses.len()
        invariant
            i <= analysis.offenses@.len(),
            v == offense_views(analysis.offenses@),
            r@.map_values(|f: Fix| f@) == fix_views(v.take(i as int)),
        decreases analysis.offenses@.len() - i,
    {
        assert(v.take(i + 1).drop_last() =~= v.take(i as int));
        assert(v.take(i + 1).last() == analysis.offenses@[i as int]@);
        match &analysis.offenses[i].fix {
            Some(f) => {
                let d = f.duplicate();
                let ghost prev = r@;
                r.push(d);
                assert(r@.map_values(|f: Fix| f@) =~= prev.map_values(|f: Fix| f@).push(d@));
            },
            None => {},
        }
        i = i + 1;
    }
    assert(v.take(i as int) =~= v);
    r
}

/// The counts the summary line reports.
#[derive(Debug, Clone, Copy, PartialEq, Eq)]
pub struct Statistics {
    pub files: usize,
    pub offenses: usize,
    /// Offenses that `--fix` can correct.
    pub fixable: usize,
    pub parse_errors: usize,
}

fn count_fixable(offenses: &Vec<Offense>) -> (r: usize)
    ensures
        r == fixable_count(offense_views(offenses@)),
{
    let ghost v = offense_views(offenses@);
    let mut n: usize = 0;
    let mut i: usize = 0;
    assert(v.take(0) =~= Seq::<OffenseView>::empty());
    while i < offenses.len()
        invariant
            i <= offenses@.len(),
            v == offense_views(offenses@),
            n == fixable_count(v.take(i as int)),
            n <= i,
        decreases offenses@.len() - i,
    {
        assert(v.take(i + 1).drop_last() =~= v.take(i as int));
        assert(v.take(i + 1).last() == offenses@[i as int]@);
        if offenses[i].fix.is_some() {
            n = n + 1;
        }
        i = i + 1;
    }
    assert(v.take(i as int) =~= v);
    n
}

proof fn lemma_fixable_le(offs: Seq<OffenseView>)
    ensures
        fixable_count(offs) <= offs.len(),
    decreases offs.len(),
{
    if offs.len() > 0 {
        lemma_fixable_le(offs.drop_last());
    }
}

proof fn lemma_run_fixable_le(results: Seq<AnalysisResult>)
    ensures
        run_fixable(results) <= spec_total(results),
    decreases results.len(),
{
    if results.len() > 0 {
        lemma_run_fixable_le(results.drop_last());
        lemma_fixable_le(offense_views(results.last().offenses@));
    }
}

/// Count the files, offenses, fixable offenses and parse errors of a run.
pub fn statistics(result: &TraversalResult) -> (r: Statistics)
    requires
        spec_total(result.results@) <= usize::MAX,
    ensures
        r.files == result.files_inspected,
        r.offenses == spec_total(result.results@),
        r.fixable == run_fixable(result.results@),
        r.parse_errors == result.parse_errors@.len(),
{
    let offenses = result.total_offenses();
    let mut fixable: usize = 0;
    let mut i: usize = 0;
    proof {
        lemma_run_fixable_le(result.results@);
    }
    assert(result.results@.take(0) =~= Seq::<AnalysisResult>::empty());
    while i < result.results.len()
        invariant
            i <= result.results@.len(),
            fixable == run_fixable(result.results@.take(i as int)),
            run_fixable(result.results@) <= spec_total(result.results@),
            spec_total(result.results@) <= usize::MAX,
        decreases result.results@.len() - i,
    {
        assert(result.results@.take(i + 1).drop_last() =~= result.results@.take(i as int));
        proof {
            lemma_run_fixable_prefix(result.results@, i + 1);
        }
        let n = count_fixable(&result.results[i].offenses);
        fixable = fixable + n;
        i = i + 1;
    }
    assert(result.results@.take(i as int) =~= result.results@);
    Statistics {
        files: result.files_inspected,
        offenses,
        fixable,
        parse_errors: result.parse_errors.len(),
    }
}

proof fn lemma_run_fixable_prefix(results: Seq<AnalysisResult>, k: int)
    requires
        0 <= k <= results.len(),
    ensures
        run_fixable(results.take(k)) <= run_fixable(results),
    decreases results.len(),
{
    if k < results.len() {
        assert(results.drop_last().take(k) =~= results.take(k));
        lemma_run_fixable_prefix(results.drop_last(), k);
    } else {
        assert(results.take(k) =~= results);
    }
}

/// The message of an offense in a by-file report: its explanation, tagged
/// ` (fixable)` when it has a fix.
pub open spec fn spec_offense_message(o: OffenseView) -> Seq<char> {
    spec_explanation(o.0) + if o.2 is Some {
        " (fixable)"@
    } else {
        ""@
    }
}

/// The message shown for an offense in the by-file report.
pub fn offense_message(offense: &Offense) -> (r: String)
    ensures
        r@ == spec_offense_message(offense@),
{
    let mut r = String::from_str(offense.kind.explanation());
    if offense.fix.is_some() {
        r.append(" (fixable)");
    } else {
        proof {
            reveal_strlit("");
            assert(r@ + ""@ =~= r@);
        }
    }
    r
}

/// The header of a rule's group in the by-rule report:
/// `"{explanation}. ({count} offense(s))"`.
pub open spec fn spec_rule_header(kind: OffenseKind, count: nat) -> Seq<char> {
    spec_explanation(kind) + ". ("@ + decimal(count) + " "@ + spec_pluralize("offense"@, count)
        + ")"@
}

/// The header of a rule's group in the by-rule report.
pub fn rule_header(kind: OffenseKind, count: usize) -> (r: String)
    ensures
        r@ == spec_rule_header(kind, count as nat),
{
    let mut r = String::from_str(kind.explanation());
    r.append(". (");
    let n = number_text(count);
    r.append(n.as_str());
    r.append(" ");
    let p = pluralize("offense", count);
    r.append(p.as_str());
    r.append(")");
    r
}

/// The part of the summary line that announces what `--fix` can correct:
/// `"{n} offense(s) autocorrectable (run rubyfast --fix)"`, present
/// exactly when some offense has a fix.
pub fn autocorrect_note(stats: &Statistics) -> (r: Option<String>)
    ensures
        r is Some <==> stats.fixable > 0,
        r matches Some(t) ==> t@ == spec_count_phrase(stats.fixable as nat, "offense"@, "autocorrectable"@)
            + " (run rubyfast --fix)"@,
{
    if stats.fixable > 0 {
        let mut t = count_phrase(stats.fixable, "offense", "autocorrectable");
        t.append(" (run rubyfast --fix)");
        Some(t)
    } else {
        None
    }
}

/// What the `--fix` summary line ends with.
#[derive(Debug, Clone, Copy, PartialEq, Eq)]
pub enum FixSummaryTail {
    /// `N files skipped (syntax error after fix)`.
    SkippedFiles(usize),
    /// `N offenses cannot be auto-fixed`.
    Unfixable(usize),
    /// Nothing more.
    Nothing,
}

/// The end of the `--fix` summary line: files skipped for a syntax error
/// take precedence, then the offenses that cannot be fixed, if any.
pub fn fix_summary_tail(stats: &Statistics, total_errors: usize) -> (r: FixSummaryTail)
    ensures
        r == (if total_errors > 0 {
            FixSummaryTail::SkippedFiles(total_errors)
        } else if stats.offenses > stats.fixable {
            FixSummaryTail::Unfixable((stats.offenses - stats.fixable) as usize)
        } else {
            FixSummaryTail::Nothing
        }),
{
    let unfixable = stats.offenses.saturating_sub(stats.fixable);
    if total_errors > 0 {
        FixSummaryTail::SkippedFiles(total_errors)
    } else if unfixable > 0 {
        FixSummaryTail::Unfixable(unfixable)
    } else {
        FixSummaryTail::Nothing
    }
}

/// The process exit status: 1 when offenses remain (in `--fix` mode, when
/// some offense has no fix), 0 otherwise.
pub fn exit_code(result: &TraversalResult, fix_mode: bool) -> (r: i32)
    requires
        spec_total(result.results@) <= usize::MAX,
    ensures
        r == (if (if fix_mode {
            spec_total(result.results@) > run_fixable(result.results@)
        } else {
            spec_total(result.results@) > 0
        }) {
            1i32
        } else {
            0i32
        }),
{
    if fix_mode {
        let stats = statistics(result);
        if stats.offenses > stats.fixable {
            1
        } else {
            0
        }
    } else if result.has_offenses() {
        1
    } else {
        0
    }
}

/// The offenses left after `--fix` are exactly those without a fix: none
/// of them has one, and every offense without a fix is kept.
pub proof fn lemma_unfixable_views(offs: Seq<OffenseView>)
    ensures
        forall|i: int| 0 <= i < unfixable_views(offs).len() ==> (#[trigger] unfixable_views(offs)[i]).2 is None,
        forall|i: int| 0 <= i < offs.len() && (#[trigger] offs[i]).2 is None ==> unfixable_views(offs).contains(offs[i]),
        unfixable_views(offs).len() + fixable_count(offs) == offs.len(),
    decreases offs.len(),
{
    if offs.len() > 0 {
        let pre = offs.drop_last();
        lemma_unfixable_views(pre);
        let u = unfixable_views(pre);
        assert forall|i: int| 0 <= i < offs.len() && (#[trigger] offs[i]).2 is None implies unfixable_views(offs).contains(offs[i]) by {
            if i < offs.len() - 1 {
                assert(pre[i] == offs[i]);
                assert(u.contains(offs[i]));
                let k = choose|k: int| 0 <= k < u.len() && u[k] == offs[i];
                if offs.last().2 is None {
                    assert(unfixable_views(offs)[k] == offs[i]);
                }
            } else {
                assert(unfixable_views(offs)[unfixable_views(offs).len() - 1] == offs[i]);
            }
        }
    }
}

} // verus!
