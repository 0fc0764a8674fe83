//! Collecting the per-file outcomes of a run: analyses and parse errors,
//! each sorted by path, and the totals the summary reports.

use vstd::prelude::*;

use crate::analyzer::{AnalysisResult, ParseError};
use crate::offense::{offense_views, OffenseView};

verus! {

/// Whether `a` comes strictly before `b` in lexicographic order of
/// characters (code points), which is the byte order of their UTF-8 forms.
pub open spec fn lex_lt(a: Seq<char>, b: Seq<char>) -> bool
    decreases a.len(),
{
    if b.len() == 0 {
        false
    } else if a.len() == 0 {
        true
    } else if a[0] != b[0] {
        a[0] < b[0]
    } else {
        lex_lt(a.drop_first(), b.drop_first())
    }
}

/// Insert `x` into a list sorted by key, after every element whose key is
/// not greater than `x`'s (so equal keys keep their input order).
pub open spec fn insert_by_key<T>(sorted: Seq<(Seq<char>, T)>, x: (Seq<char>, T)) -> Seq<
    (Seq<char>, T),
>
    decreases sorted.len(),
{
    if sorted.len() == 0 {
        seq![x]
    } else if !lex_lt(x.0, sorted.last().0) {
        sorted.push(x)
    } else {
        insert_by_key(sorted.drop_last(), x).push(sorted.last())
    }
}

/// Stable sort by key (the path).
pub open spec fn sort_by_key<T>(s: Seq<(Seq<char>, T)>) -> Seq<(Seq<char>, T)>
    decreases s.len(),
{
    if s.len() == 0 {
        seq![]
    } else {
        insert_by_key(sort_by_key(s.drop_last()), s.last())
    }
}

impl View for AnalysisResult {
    type V = (Seq<char>, Seq<OffenseView>);

    open spec fn view(&self) -> (Seq<char>, Seq<OffenseView>) {
        (self.path@, offense_views(self.offenses@))
    }
}

impl View for ParseError {
    type V = (Seq<char>, Seq<char>);

    open spec fn view(&self) -> (Seq<char>, Seq<char>) {
        (self.path@, self.message@)
    }
}

/// The views of a list of analyses.
pub open spec fn analysis_views(v: Seq<AnalysisResult>) -> Seq<(Seq<char>, Seq<OffenseView>)> {
    v.map_values(|a: AnalysisResult| a@)
}

/// The views of a list of parse errors.
pub open spec fn error_views(v: Seq<ParseError>) -> Seq<(Seq<char>, Seq<char>)> {
    v.map_values(|e: ParseError| e@)
}

/// The total number of offenses of a list of analyses.
pub open spec fn spec_total(v: Seq<AnalysisResult>) -> nat
    decreases v.len(),
{
    if v.len() == 0 {
        0
    } else {
        spec_total(v.drop_last()) + v.last().offenses@.len()
    }
}

/// The analyses of the files that could be read, in input order.
pub open spec fn ok_results(v: Seq<Result<AnalysisResult, ParseError>>) -> Seq<
    (Seq<char>, Seq<OffenseView>),
>
    decreases v.len(),
{
    if v.len() == 0 {
        seq![]
    } else {
        match v.last() {
            Ok(a) => ok_results(v.drop_last()).push(a@),
            Err(_) => ok_results(v.drop_last()),
        }
    }
}

/// The errors of the files that could not be read, in input order.
pub open spec fn err_results(v: Seq<Result<AnalysisResult, ParseError>>) -> Seq<
    (Seq<char>, Seq<char>),
>
    decreases v.len(),
{
    if v.len() == 0 {
        seq![]
    } else {
        match v.last() {
            Ok(_) => err_results(v.drop_last()),
            Err(e) => err_results(v.drop_last()).push(e@),
        }
    }
}

/// Result of traversing and analyzing all files.
#[derive(Debug)]
pub struct TraversalResult {
    pub results: Vec<AnalysisResult>,
    pub parse_errors: Vec<ParseError>,
    pub files_inspected: usize,
}

impl TraversalResult {
    /// The number of offenses over all files.
    pub fn total_offenses(&self) -> (r: usize)
        requires
            spec_total(self.results@) <= usize::MAX,
        ensures
            r == spec_total(self.results@),
    {
        let mut total: usize = 0;
        let mut i: usize = 0;
        while i < self.results.len()
            invariant
                i <= self.results@.len(),
                spec_total(self.results@) <= usize::MAX,
                total == spec_total(self.results@.take(i as int)),
            decreases self.results@.len() - i,
        {
            assert(self.results@.take(i + 1).drop_last() =~= self.results@.take(i as int));
            proof {
                lemma_total_prefix(self.results@, i + 1);
            }
            total = total + self.results[i].offenses.len();
            i = i + 1;
        }
        assert(self.results@.take(i as int) =~= self.results@);
        total
    }

    /// Whether any file has an offense.
    pub fn has_offenses(&self) -> (r: bool)
        ensures
            r == (spec_total(self.results@) > 0),
    {
        let mut i: usize = 0;
        while i < self.results.len()
            invariant
                i <= self.results@.len(),
                spec_total(self.results@.take(i as int)) == 0,
            decreases self.results@.len() - i,
        {
            assert(self.results@.take(i + 1).drop_last() =~= self.results@.take(i as int));
            if self.results[i].offenses.len() > 0 {
                proof {
                    lemma_total_prefix(self.results@, i + 1);
                }
                return true;
            }
            i = i + 1;
        }
        assert(self.results@.take(i as int) =~= self.results@);
        false
    }
}

/// A prefix never has more offenses than the whole list.
pub proof fn lemma_total_prefix(v: Seq<AnalysisResult>, k: int)
    requires
        0 <= k <= v.len(),
    ensures
        spec_total(v.take(k)) <= spec_total(v),
    decreases v.len(),
{
    if k < v.len() {
        assert(v.drop_last().take(k) =~= v.take(k));
        lemma_total_prefix(v.drop_last(), k);
    } else {
        assert(v.take(k) =~= v);
    }
}

/// Whether `a` comes strictly before `b` in lexicographic order.
pub fn str_lt(a: &str, b: &str) -> (r: bool)
    ensures
        r == lex_lt(a@, b@),
{
    let n = a.unicode_len();
    let m = b.unicode_len();
    let mut i: usize = 0;
    assert(a@.skip(0) =~= a@);
    assert(b@.skip(0) =~= b@);
    while i < n && i < m
        invariant
            n == a@.len(),
            m == b@.len(),
            i <= n,
            i <= m,
            lex_lt(a@, b@) == lex_lt(a@.skip(i as int), b@.skip(i as int)),
        decreases n - i,
    {
        let x = a.get_char(i);
        let y = b.get_char(i);
        assert(a@.skip(i as int)[0] == x);
        assert(b@.skip(i as int)[0] == y);
        if x != y {
            return x < y;
        }
        assert(a@.skip(i as int).drop_first() =~= a@.skip(i + 1));
        assert(b@.skip(i as int).drop_first() =~= b@.skip(i + 1));
        i = i + 1;
    }
    i == n && i < m
}

proof fn lemma_insert_by_key_at<T>(sorted: Seq<(Seq<char>, T)>, x: (Seq<char>, T), k: int)
    requires
        0 <= k <= sorted.len(),
        k == 0 || !lex_lt(x.0, sorted[k - 1].0),
        forall|j: int| k <= j < sorted.len() ==> lex_lt(x.0, (#[trigger] sorted[j]).0),
    ensures
        insert_by_key(sorted, x) == sorted.take(k).push(x) + sorted.skip(k),
    decreases sorted.len(),
{
    if sorted.len() == 0 {
        assert(sorted.take(k).push(x) + sorted.skip(k) =~= seq![x]);
    } else if !lex_lt(x.0, sorted.last().0) {
        assert(k == sorted.len());
        assert(sorted.take(k).push(x) + sorted.skip(k) =~= sorted.push(x));
    } else {
        lemma_insert_by_key_at(sorted.drop_last(), x, k);
        assert(sorted.drop_last().take(k).push(x) + sorted.drop_last().skip(k) + seq![sorted.last()]
            =~= sorted.take(k).push(x) + sorted.skip(k));
    }
}

fn sort_results_by_path(v: Vec<AnalysisResult>) -> (r: Vec<AnalysisResult>)
    ensures
        analysis_views(r@) == sort_by_key(analysis_views(v@)),
{
    let ghost all = analysis_views(v@);
    let mut sorted: Vec<AnalysisResult> = Vec::new();
    let ghost v0 = v@;
    let mut rest = v;
    assert(analysis_views(sorted@) =~= sort_by_key(all.take(0)));
    let mut i: usize = 0;
    assert(rest@ =~= v0.skip(0));
    let n0 = rest.len();
    while rest.len() > 0
        invariant
            i + rest@.len() == n0,
            n0 == all.len(),
            all == analysis_views(v0),
            rest@ == v0.skip(i as int),
            analysis_views(sorted@) == sort_by_key(all.take(i as int)),
        decreases rest@.len(),
    {
        let x = rest.remove(0);
        assert(x == v0[i as int]);
        assert(rest@ =~= v0.skip(i + 1));
        let mut k: usize = sorted.len();
        while k > 0 && str_lt(x.path.as_str(), sorted[k - 1].path.as_str())
            invariant
                k <= sorted@.len(),
                forall|j: int| k <= j < sorted@.len() ==> lex_lt(x.path@, (#[trigger] sorted@[j]).path@),
            decreases k,
        {
            k = k - 1;
        }
        let ghost old_sorted = analysis_views(sorted@);
        proof {
            lemma_insert_by_key_at(old_sorted, x@, k as int);
            assert(all.take(i + 1).drop_last() =~= all.take(i as int));
        }
        let ghost xv = x@;
        sorted.insert(k, x);
        proof {
            assert(analysis_views(sorted@) =~= old_sorted.take(k as int).push(xv) + old_sorted.skip(
                k as int,
            ));
        }
        i = i + 1;
    }
    assert(all.take(i as int) =~= all);
    sorted
}

fn sort_errors_by_path(v: Vec<ParseError>) -> (r: Vec<ParseError>)
    ensures
        error_views(r@) == sort_by_key(error_views(v@)),
{
    let ghost all = error_views(v@);
    let mut sorted: Vec<ParseError> = Vec::new();
    let ghost v0 = v@;
    let mut rest = v;
    assert(error_views(sorted@) =~= sort_by_key(all.take(0)));
    let mut i: usize = 0;
    assert(rest@ =~= v0.skip(0));
    let n0 = rest.len();
    while rest.len() > 0
        invariant
            i + rest@.len() == n0,
            n0 == all.len(),
            all == error_views(v0),
            rest@ == v0.skip(i as int),
            error_views(sorted@) == sort_by_key(all.take(i as int)),
        decreases rest@.len(),
    {
        let x = rest.remove(0);
        assert(x == v0[i as int]);
        assert(rest@ =~= v0.skip(i + 1));
        let mut k: usize = sorted.len();
        while k > 0 && str_lt(x.path.as_str(), sorted[k - 1].path.as_str())
            invariant
                k <= sorted@.len(),
                forall|j: int| k <= j < sorted@.len() ==> lex_lt(x.path@, (#[trigger] sorted@[j]).path@),
            decreases k,
        {
            k = k - 1;
        }
        let ghost old_sorted = error_views(sorted@);
        proof {
            lemma_insert_by_key_at(old_sorted, x@, k as int);
            assert(all.take(i + 1).drop_last() =~= all.take(i as int));
        }
        let ghost xv = x@;
        sorted.insert(k, x);
        proof {
            assert(error_views(sorted@) =~= old_sorted.take(k as int).push(xv) + old_sorted.skip(
                k as int,
            ));
        }
        i = i + 1;
    }
    assert(all.take(i as int) =~= all);
    sorted
}

/// Split the per-file outcomes of a run (one per file inspected) into
/// analyses and parse errors, each sorted by path (stably), for
/// deterministic output.
pub fn collect_results(file_results: Vec<Result<AnalysisResult, ParseError>>) -> (r: TraversalResult)
    ensures
        analysis_views(r.results@) == sort_by_key(ok_results(file_results@)),
        error_views(r.parse_errors@) == sort_by_key(err_results(file_results@)),
        r.files_inspected == file_results@.len(),
{
    let files_inspected = file_results.len();
    let ghost fr = file_results@;
    let mut results: Vec<AnalysisResult> = Vec::new();
    let mut parse_errors: Vec<ParseError> = Vec::new();
    let mut rest = file_results;
    let mut i: usize = 0;
    assert(analysis_views(results@) =~= ok_results(fr.take(0)));
    assert(error_views(parse_errors@) =~= err_results(fr.take(0)));
    assert(rest@ =~= fr.skip(0));
    let n0 = rest.len();
    while rest.len() > 0
        invariant
            i + rest@.len() == n0,
            n0 == fr.len(),
            rest@ == fr.skip(i as int),
            analysis_views(results@) == ok_results(fr.take(i as int)),
            error_views(parse_errors@) == err_results(fr.take(i as int)),
        decreases rest@.len(),
    {
        let x = rest.remove(0);
        assert(x == fr[i as int]);
        assert(rest@ =~= fr.skip(i + 1));
        assert(fr.take(i + 1).drop_last() =~= fr.take(i as int));
        match x {
            Ok(analysis) => {
                let ghost prev = results@;
                results.push(analysis);
                assert(analysis_views(results@) =~= analysis_views(prev).push(
                    results@[results@.len() - 1]@,
                ));
            },
            Err(err) => {
                let ghost prev = parse_errors@;
                parse_errors.push(err);
                assert(error_views(parse_errors@) =~= error_views(prev).push(
                    parse_errors@[parse_errors@.len() - 1]@,
                ));
            },
        }
        i = i + 1;
    }
    assert(fr.take(i as int) =~= fr);
    TraversalResult {
        results: sort_results_by_path(results),
        parse_errors: sort_errors_by_path(parse_errors),
        files_inspected,
    }
}

/// Whether a list is sorted by key: no key is smaller than an earlier one.
pub open spec fn sorted_by_key<T>(s: Seq<(Seq<char>, T)>) -> bool {
    forall|i: int, j: int| 0 <= i < j < s.len() ==> !lex_lt(#[trigger] s[j].0, #[trigger] s[i].0)
}

proof fn lemma_lex_trans(a: Seq<char>, b: Seq<char>, c: Seq<char>)
    requires
        lex_lt(a, b),
        lex_lt(b, c),
    ensures
        lex_lt(a, c),
    decreases a.len(),
{
    if a.len() > 0 && b.len() > 0 && c.len() > 0 && a[0] == b[0] && b[0] == c[0] {
        lemma_lex_trans(a.drop_first(), b.drop_first(), c.drop_first());
    }
}

proof fn lemma_lex_total(a: Seq<char>, b: Seq<char>)
    ensures
        a == b || lex_lt(a, b) || lex_lt(b, a),
    decreases a.len(),
{
    if a.len() == 0 && b.len() == 0 {
        assert(a =~= b);
    } else if a.len() > 0 && b.len() > 0 && a[0] == b[0] {
        lemma_lex_total(a.drop_first(), b.drop_first());
        if a.drop_first() == b.drop_first() {
            assert(a =~= seq![a[0]] + a.drop_first());
            assert(b =~= seq![b[0]] + b.drop_first());
        }
    } else if a.len() > 0 && b.len() > 0 {
        assert(a[0] < b[0] || b[0] < a[0]);
    }
}

proof fn lemma_lex_irrefl(a: Seq<char>)
    ensures
        !lex_lt(a, a),
    decreases a.len(),
{
    if a.len() > 0 {
        lemma_lex_irrefl(a.drop_first());
    }
}

/// `a <= b <= c` in key order gives `a <= c`.
proof fn lemma_le_trans(a: Seq<char>, b: Seq<char>, c: Seq<char>)
    requires
        !lex_lt(b, a),
        !lex_lt(c, b),
    ensures
        !lex_lt(c, a),
{
    lemma_lex_total(a, b);
    lemma_lex_total(b, c);
    if lex_lt(c, a) {
        if a == b {
        } else if b == c {
        } else {
            lemma_lex_trans(a, b, c);
            lemma_lex_trans(c, a, b);
            lemma_lex_irrefl(b);
            lemma_lex_trans(b, c, b);
        }
    }
}

proof fn lemma_insert_by_key_props<T>(sorted: Seq<(Seq<char>, T)>, x: (Seq<char>, T))
    requires
        sorted_by_key(sorted),
    ensures
        sorted_by_key(insert_by_key(sorted, x)),
        insert_by_key(sorted, x).len() == sorted.len() + 1,
        forall|y: (Seq<char>, T)|
            #[trigger] insert_by_key(sorted, x).contains(y) ==> sorted.contains(y) || y == x,
        insert_by_key(sorted, x).to_multiset() == sorted.to_multiset().insert(x),
    decreases sorted.len(),
{
    broadcast use vstd::seq_lib::group_to_multiset_ensures;

    if sorted.len() == 0 {
        assert(seq![x] =~= Seq::<(Seq<char>, T)>::empty().push(x));
        assert(insert_by_key(sorted, x) == seq![x]);
        assert forall|y: (Seq<char>, T)| #[trigger] insert_by_key(sorted, x).contains(y) implies sorted.contains(y) || y == x by {
            assert(seq![x][0] == x);
        }
    } else if !lex_lt(x.0, sorted.last().0) {
        let r = sorted.push(x);
        assert forall|i: int, j: int| 0 <= i < j < r.len() implies !lex_lt(#[trigger] r[j].0, #[trigger] r[i].0) by {
            if j == r.len() - 1 && i < sorted.len() - 1 {
                lemma_le_trans(r[i].0, sorted.last().0, x.0);
            }
        }
        assert forall|y: (Seq<char>, T)| #[trigger] r.contains(y) implies sorted.contains(y) || y == x by {
            let k = choose|k: int| 0 <= k < r.len() && r[k] == y;
            if k < sorted.len() {
                assert(sorted[k] == y);
            }
        }
    } else {
        let pre = sorted.drop_last();
        let last = sorted.last();
        assert(sorted_by_key(pre)) by {
            assert forall|i: int, j: int| 0 <= i < j < pre.len() implies !lex_lt(#[trigger] pre[j].0, #[trigger] pre[i].0) by {
                assert(pre[i] == sorted[i] && pre[j] == sorted[j]);
            }
        }
        lemma_insert_by_key_props(pre, x);
        let ins = insert_by_key(pre, x);
        let r = ins.push(last);
        assert(sorted =~= pre.push(last));
        assert(r.to_multiset() =~= sorted.to_multiset().insert(x));
        assert forall|i: int, j: int| 0 <= i < j < r.len() implies !lex_lt(#[trigger] r[j].0, #[trigger] r[i].0) by {
            if j == r.len() - 1 {
                let y = ins[i];
                assert(ins.contains(y));
                if y == x {
                    lemma_lex_total(x.0, last.0);
                    if lex_lt(last.0, x.0) {
                        lemma_lex_trans(last.0, x.0, last.0);
                        lemma_lex_irrefl(last.0);
                    }
                } else {
                    assert(pre.contains(y));
                    let k = choose|k: int| 0 <= k < pre.len() && pre[k] == y;
                    assert(sorted[k] == y);
                    assert(!lex_lt(sorted[sorted.len() - 1].0, sorted[k].0));
                }
            } else {
                assert(r[i] == ins[i] && r[j] == ins[j]);
            }
        }
        assert forall|y: (Seq<char>, T)| #[trigger] r.contains(y) implies sorted.contains(y) || y == x by {
            let k = choose|k: int| 0 <= k < r.len() && r[k] == y;
            if k < ins.len() {
                assert(ins.contains(y));
                if y != x {
                    assert(pre.contains(y));
                    let m = choose|m: int| 0 <= m < pre.len() && pre[m] == y;
                    assert(sorted[m] == y);
                }
            } else {
                assert(sorted[sorted.len() - 1] == y);
            }
        }
    }
}

/// Sorting by path yields a list sorted by path that holds exactly the
/// input's elements, each as many times as the input does.
pub proof fn lemma_sort_by_key_sorted<T>(s: Seq<(Seq<char>, T)>)
    ensures
        sorted_by_key(sort_by_key(s)),
        sort_by_key(s).len() == s.len(),
        forall|y: (Seq<char>, T)| #[trigger] sort_by_key(s).contains(y) ==> s.contains(y),
        sort_by_key(s).to_multiset() == s.to_multiset(),
    decreases s.len(),
{
    broadcast use vstd::seq_lib::group_to_multiset_ensures;

    if s.len() == 0 {
        assert(sort_by_key(s) =~= s);
    } else {
        assert(s =~= s.drop_last().push(s.last()));
        lemma_sort_by_key_sorted(s.drop_last());
        lemma_insert_by_key_props(sort_by_key(s.drop_last()), s.last());
        assert forall|y: (Seq<char>, T)| #[trigger] sort_by_key(s).contains(y) implies s.contains(y) by {
            if y == s.last() {
                assert(s[s.len() - 1] == y);
            } else {
                assert(sort_by_key(s.drop_last()).contains(y));
                assert(s.drop_last().contains(y));
                let k = choose|k: int| 0 <= k < s.drop_last().len() && s.drop_last()[k] == y;
                assert(s[k] == y);
            }
        }
    }
}

} // verus!
