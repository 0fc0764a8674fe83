//! Auto-fixes: byte-range replacements, and their application to source text.

use vstd::prelude::*;
use vstd::utf8::encode_utf8;

verus! {

/// View of a replacement: start, end, replacement text.
pub type ReplacementView = (usize, usize, Seq<char>);

/// A single byte-range replacement in a source file.
#[derive(Debug, Clone)]
pub struct Replacement {
    pub start: usize,
    pub end: usize,
    pub text: String,
}

impl View for Replacement {
    type V = ReplacementView;

    open spec fn view(&self) -> ReplacementView {
        (self.start, self.end, self.text@)
    }
}

impl Replacement {
    /// A copy of this replacement.
    pub fn duplicate(&self) -> (r: Self)
        ensures
            r@ == self@,
    {
        Replacement { start: self.start, end: self.end, text: self.text.clone() }
    }
}

/// A fix consisting of one or more replacements to apply atomically.
#[derive(Debug, Clone)]
pub struct Fix {
    pub replacements: Vec<Replacement>,
}

/// The views of a sequence of replacements.
pub open spec fn replacement_views(v: Seq<Replacement>) -> Seq<ReplacementView> {
    v.map_values(|r: Replacement| r@)
}

impl View for Fix {
    type V = Seq<ReplacementView>;

    open spec fn view(&self) -> Seq<ReplacementView> {
        replacement_views(self.replacements@)
    }
}

impl Fix {
    /// A fix made of one replacement.
    pub fn single(start: usize, end: usize, text: &str) -> (r: Self)
        ensures
            r@ == seq![(start, end, text@)],
    {
        let rep = Replacement { start, end, text: String::from_str(text) };
        let r = Fix { replacements: vec![rep] };
        assert(r@ =~= seq![(start, end, text@)]);
        r
    }

    /// A fix made of two replacements, in the given order.
    pub fn two(start1: usize, end1: usize, text1: &str, start2: usize, end2: usize, text2: &str) -> (r:
        Self)
        ensures
            r@ == seq![(start1, end1, text1@), (start2, end2, text2@)],
    {
        let r1 = Replacement { start: start1, end: end1, text: String::from_str(text1) };
        let r2 = Replacement { start: start2, end: end2, text: String::from_str(text2) };
        let r = Fix { replacements: vec![r1, r2] };
        assert(r@ =~= seq![(start1, end1, text1@), (start2, end2, text2@)]);
        r
    }

    /// A copy of this fix.
    pub fn duplicate(&self) -> (r: Self)
        ensures
            r@ == self@,
    {
        let mut reps: Vec<Replacement> = Vec::new();
        let mut i: usize = 0;
        while i < self.replacements.len()
            invariant
                i <= self.replacements.len(),
                reps@.len() == i,
                forall|j: int| 0 <= j < i ==> (#[trigger] reps@[j])@ == self.replacements@[j]@,
            decreases self.replacements.len() - i,
        {
            reps.push(self.replacements[i].duplicate());
            i = i + 1;
        }
        assert(replacement_views(reps@) =~= replacement_views(self.replacements@));
        Fix { replacements: reps }
    }
}

/// The views of a list of fixes.
pub open spec fn fix_views(fixes: Seq<Fix>) -> Seq<Seq<ReplacementView>> {
    fixes.map_values(|f: Fix| f@)
}

/// The replacements of a list of fixes (as views), one fix after the other.
pub open spec fn flat(fs: Seq<Seq<ReplacementView>>) -> Seq<ReplacementView>
    decreases fs.len(),
{
    if fs.len() == 0 {
        seq![]
    } else {
        flat(fs.drop_last()) + fs.last()
    }
}

/// All replacements of a list of fixes, in order.
pub open spec fn flatten_fixes(fixes: Seq<Fix>) -> Seq<ReplacementView> {
    flat(fix_views(fixes))
}

/// The greatest start offset among a fix's replacements (0 when it has none).
pub open spec fn max_start(f: Seq<ReplacementView>) -> int
    decreases f.len(),
{
    if f.len() == 0 {
        0
    } else if f.last().0 > max_start(f.drop_last()) {
        f.last().0 as int
    } else {
        max_start(f.drop_last())
    }
}

/// Insert fix `x` into a list sorted by descending greatest start, after
/// every fix whose greatest start is at least `x`'s.
pub open spec fn insert_fix_desc(sorted: Seq<Seq<ReplacementView>>, x: Seq<ReplacementView>) -> Seq<
    Seq<ReplacementView>,
>
    decreases sorted.len(),
{
    if sorted.len() == 0 {
        seq![x]
    } else if max_start(sorted.last()) >= max_start(x) {
        sorted.push(x)
    } else {
        insert_fix_desc(sorted.drop_last(), x).push(sorted.last())
    }
}

/// The order in which fixes are considered: stably sorted by the greatest
/// start of their replacements, last in the file first (the order in which
/// applying back to front meets them).
pub open spec fn sort_fixes_desc(fs: Seq<Seq<ReplacementView>>) -> Seq<Seq<ReplacementView>>
    decreases fs.len(),
{
    if fs.len() == 0 {
        seq![]
    } else {
        insert_fix_desc(sort_fixes_desc(fs.drop_last()), fs.last())
    }
}

/// Whether two replacements clash: their ranges share a byte, or they are
/// the same range. (An insertion at the start or end of another range does
/// not clash with it.)
pub open spec fn overlaps(a: ReplacementView, b: ReplacementView) -> bool {
    (a.0 < b.1 && b.0 < a.1) || (a.0 == b.0 && a.1 == b.1)
}

/// Whether `a` comes before `b` by start, then by end.
pub open spec fn lex_less(a: ReplacementView, b: ReplacementView) -> bool {
    a.0 < b.0 || (a.0 == b.0 && a.1 < b.1)
}

/// Whether a replacement's range is well formed and lies inside a source of
/// length `len`.
pub open spec fn in_range(r: ReplacementView, len: int) -> bool {
    r.0 <= r.1 && r.1 <= len
}

/// Whether fix `f` can be applied on top of the replacements `accepted`:
/// each of its replacements lies in range, and none clashes with another of
/// its replacements or with an accepted one.
pub open spec fn fix_fits(accepted: Seq<ReplacementView>, f: Seq<ReplacementView>, len: int) -> bool {
    &&& forall|i: int| 0 <= i < f.len() ==> in_range(#[trigger] f[i], len)
    &&& forall|i: int, j: int| 0 <= i < j < f.len() ==> !overlaps(#[trigger] f[i], #[trigger] f[j])
    &&& forall|i: int, j: int|
        0 <= i < f.len() && 0 <= j < accepted.len() ==> !overlaps(
            #[trigger] f[i],
            #[trigger] accepted[j],
        )
}

/// The replacements of the fixes that are applied, taking the fixes in the
/// given order: a fix is applied whole when it fits on top of those before
/// it, and skipped whole otherwise.
pub open spec fn accept(fs: Seq<Seq<ReplacementView>>, len: int) -> Seq<ReplacementView>
    decreases fs.len(),
{
    if fs.len() == 0 {
        seq![]
    } else {
        let acc = accept(fs.drop_last(), len);
        if fix_fits(acc, fs.last(), len) {
            acc + fs.last()
        } else {
            acc
        }
    }
}

/// The replacements applied when `fixes` are applied to a source of length
/// `len`.
pub open spec fn accepted_replacements(fixes: Seq<Fix>, len: int) -> Seq<ReplacementView> {
    accept(sort_fixes_desc(fix_views(fixes)), len)
}

/// Insert `x` into a list sorted by descending start, then descending end,
/// after every element that does not come before `x` in that order (so
/// equal ranges keep their input order).
pub open spec fn insert_by_start_desc(sorted: Seq<ReplacementView>, x: ReplacementView) -> Seq<
    ReplacementView,
>
    decreases sorted.len(),
{
    if sorted.len() == 0 {
        seq![x]
    } else if !lex_less(sorted.last(), x) {
        sorted.push(x)
    } else {
        insert_by_start_desc(sorted.drop_last(), x).push(sorted.last())
    }
}

/// Stable sort by descending start offset, then descending end offset.
pub open spec fn sort_by_start_desc(s: Seq<ReplacementView>) -> Seq<ReplacementView>
    decreases s.len(),
{
    if s.len() == 0 {
        seq![]
    } else {
        insert_by_start_desc(sort_by_start_desc(s.drop_last()), s.last())
    }
}

/// `data` with the bytes in `[start, end)` replaced by `text`.
pub open spec fn splice_bytes(data: Seq<u8>, start: int, end: int, text: Seq<u8>) -> Seq<u8> {
    data.take(start) + text + data.skip(end)
}

/// Splice the replacements into `data` one after the other.
pub open spec fn splice_all(data: Seq<u8>, reps: Seq<ReplacementView>) -> Seq<u8>
    decreases reps.len(),
{
    if reps.len() == 0 {
        data
    } else {
        splice_all(
            splice_bytes(data, reps[0].0 as int, reps[0].1 as int, encode_utf8(reps[0].2)),
            reps.drop_first(),
        )
    }
}

/// The source with back-to-front replacements written in, as one
/// concatenation: `source[..rk.start] ++ rk.text ++ source[rk.end..r(k-1).start]
/// ++ ... ++ r1.text ++ source[r1.end..]`, where `r1` is the first (last in
/// the file) and `rk` the last of `reps`.
pub open spec fn stitched(source: Seq<u8>, reps: Seq<ReplacementView>) -> Seq<u8>
    decreases reps.len(),
{
    if reps.len() == 0 {
        source
    } else {
        stitched(source.take(reps[0].0 as int), reps.drop_first()) + encode_utf8(reps[0].2)
            + source.skip(reps[0].1 as int)
    }
}

/// The result of applying `fixes` to `source`: the replacements of the
/// fixes that are applied, back to front (by descending start).
pub open spec fn spec_apply_fixes(source: Seq<u8>, fixes: Seq<Fix>) -> Seq<u8> {
    splice_all(source, sort_by_start_desc(accepted_replacements(fixes, source.len() as int)))
}

/// How many replacements are applied when `fixes` are applied to `source`.
pub open spec fn spec_fix_count(source: Seq<u8>, fixes: Seq<Fix>) -> nat {
    accepted_replacements(fixes, source.len() as int).len()
}

/// Whether a list of replacements could all be applied to a source of
/// length `len`: no replacement occurs twice, each lies in range, and no
/// two clash.
pub open spec fn separate(s: Seq<ReplacementView>, len: int) -> bool {
    &&& s.no_duplicates()
    &&& forall|i: int| 0 <= i < s.len() ==> in_range(#[trigger] s[i], len)
    &&& forall|a: ReplacementView, b: ReplacementView|
        #[trigger] s.contains(a) && #[trigger] s.contains(b) && a != b ==> !overlaps(a, b)
}

/// Whether a list of replacements runs back to front: each one ends at or
/// before the start of every one before it, and comes strictly before it
/// by start, then end.
pub open spec fn back_to_front(s: Seq<ReplacementView>) -> bool {
    forall|p: int, q: int|
        0 <= p < q < s.len() ==> (#[trigger] s[q]).1 <= (#[trigger] s[p]).0 && lex_less(s[q], s[p])
}

proof fn lemma_insert_at(sorted: Seq<ReplacementView>, x: ReplacementView, k: int)
    requires
        0 <= k <= sorted.len(),
        k == 0 || !lex_less(sorted[k - 1], x),
        forall|j: int| k <= j < sorted.len() ==> lex_less(#[trigger] sorted[j], x),
    ensures
        insert_by_start_desc(sorted, x) == sorted.take(k).push(x) + sorted.skip(k),
    decreases sorted.len(),
{
    if sorted.len() == 0 {
        assert(sorted.take(k).push(x) + sorted.skip(k) =~= seq![x]);
    } else if !lex_less(sorted.last(), x) {
        assert(k == sorted.len());
        assert(sorted.take(k).push(x) + sorted.skip(k) =~= sorted.push(x));
    } else {
        lemma_insert_at(sorted.drop_last(), x, k);
        assert(sorted.drop_last().take(k).push(x) + sorted.drop_last().skip(k) + seq![sorted.last()]
            =~= sorted.take(k).push(x) + sorted.skip(k));
    }
}

proof fn lemma_insert_fix_at(sorted: Seq<Seq<ReplacementView>>, x: Seq<ReplacementView>, k: int)
    requires
        0 <= k <= sorted.len(),
        k == 0 || max_start(sorted[k - 1]) >= max_start(x),
        forall|j: int| k <= j < sorted.len() ==> max_start(#[trigger] sorted[j]) < max_start(x),
    ensures
        insert_fix_desc(sorted, x) == sorted.take(k).push(x) + sorted.skip(k),
    decreases sorted.len(),
{
    if sorted.len() == 0 {
        assert(sorted.take(k).push(x) + sorted.skip(k) =~= seq![x]);
    } else if max_start(sorted.last()) >= max_start(x) {
        assert(k == sorted.len());
        assert(sorted.take(k).push(x) + sorted.skip(k) =~= sorted.push(x));
    } else {
        lemma_insert_fix_at(sorted.drop_last(), x, k);
        assert(sorted.drop_last().take(k).push(x) + sorted.drop_last().skip(k) + seq![sorted.last()]
            =~= sorted.take(k).push(x) + sorted.skip(k));
    }
}

/// The fixes picked from `fv` by the indices of `order`, in that order.
spec fn picked(fv: Seq<Seq<ReplacementView>>, order: Seq<usize>) -> Seq<Seq<ReplacementView>> {
    order.map_values(|k: usize| fv[k as int])
}

/// Appending a fix that fits keeps a list of replacements separate.
proof fn lemma_append_separate(acc: Seq<ReplacementView>, f: Seq<ReplacementView>, len: int)
    requires
        separate(acc, len),
        fix_fits(acc, f, len),
    ensures
        separate(acc + f, len),
{
    let s = acc + f;
    let n = acc.len();
    assert forall|i: int, j: int| 0 <= i < s.len() && 0 <= j < s.len() && i != j implies s[i]
        != s[j] by {
        if i < n && j < n {
            assert(s[i] == acc[i] && s[j] == acc[j]);
        } else if i >= n && j >= n {
            assert(s[i] == f[i - n] && s[j] == f[j - n]);
            if i < j {
                assert(!overlaps(f[i - n], f[j - n]));
            } else {
                assert(!overlaps(f[j - n], f[i - n]));
            }
        } else if i < n {
            assert(s[i] == acc[i] && s[j] == f[j - n]);
            assert(!overlaps(f[j - n], acc[i]));
        } else {
            assert(s[i] == f[i - n] && s[j] == acc[j]);
            assert(!overlaps(f[i - n], acc[j]));
        }
    }
    assert forall|i: int| 0 <= i < s.len() implies in_range(#[trigger] s[i], len) by {
        if i < n {
            assert(s[i] == acc[i]);
        } else {
            assert(s[i] == f[i - n]);
        }
    }
    assert forall|a: ReplacementView, b: ReplacementView|
        #[trigger] s.contains(a) && #[trigger] s.contains(b) && a != b implies !overlaps(a, b) by {
        let i = choose|i: int| 0 <= i < s.len() && s[i] == a;
        let j = choose|j: int| 0 <= j < s.len() && s[j] == b;
        if i < n && j < n {
            assert(acc[i] == a && acc[j] == b);
            assert(acc.contains(a) && acc.contains(b));
        } else if i >= n && j >= n {
            assert(f[i - n] == a && f[j - n] == b);
            if i < j {
                assert(!overlaps(f[i - n], f[j - n]));
            } else {
                assert(!overlaps(f[j - n], f[i - n]));
            }
        } else if i < n {
            assert(acc[i] == a && f[j - n] == b);
            assert(!overlaps(f[j - n], acc[i]));
        } else {
            assert(f[i - n] == a && acc[j] == b);
            assert(!overlaps(f[i - n], acc[j]));
        }
    }
}

/// The replacements accepted from any list of fixes are separate.
proof fn lemma_accept_separate(fs: Seq<Seq<ReplacementView>>, len: int)
    ensures
        separate(accept(fs, len), len),
    decreases fs.len(),
{
    if fs.len() > 0 {
        lemma_accept_separate(fs.drop_last(), len);
        let acc = accept(fs.drop_last(), len);
        if fix_fits(acc, fs.last(), len) {
            lemma_append_separate(acc, fs.last(), len);
        }
    }
}

/// Being separate depends only on the replacements and how often each
/// occurs, not on their order.
proof fn lemma_separate_ms(s: Seq<ReplacementView>, t: Seq<ReplacementView>, len: int)
    requires
        s.to_multiset() == t.to_multiset(),
        separate(s, len),
    ensures
        separate(t, len),
{
    broadcast use vstd::seq_lib::group_to_multiset_ensures;

    s.lemma_multiset_has_no_duplicates();
    assert forall|x: ReplacementView| t.to_multiset().contains(x) implies t.to_multiset().count(x)
        == 1 by {
        assert(s.to_multiset().contains(x));
    }
    t.lemma_multiset_has_no_duplicates_conv();
    assert forall|i: int| 0 <= i < t.len() implies in_range(#[trigger] t[i], len) by {
        assert(t.contains(t[i]));
        assert(t.to_multiset().count(t[i]) > 0);
        assert(s.contains(t[i]));
        let p = choose|p: int| 0 <= p < s.len() && s[p] == t[i];
    }
    assert forall|a: ReplacementView, b: ReplacementView|
        #[trigger] t.contains(a) && #[trigger] t.contains(b) && a != b implies !overlaps(a, b) by {
        assert(t.to_multiset().count(a) > 0);
        assert(t.to_multiset().count(b) > 0);
        assert(s.contains(a) && s.contains(b));
    }
}

/// Sorting separate replacements by descending start puts them back to
/// front, each still in range.
proof fn lemma_sorted_back_to_front(s: Seq<ReplacementView>, len: int)
    requires
        separate(s, len),
    ensures
        back_to_front(sort_by_start_desc(s)),
        separate(sort_by_start_desc(s), len),
{
    let t = sort_by_start_desc(s);
    lemma_sort_by_start_desc(s);
    lemma_separate_ms(s, t, len);
    assert forall|p: int, q: int| 0 <= p < q < t.len() implies (#[trigger] t[q]).1 <= (
    #[trigger] t[p]).0 && lex_less(t[q], t[p]) by {
        assert(t[p] != t[q]);
        assert(!lex_less(t[p], t[q]));
        assert(t.contains(t[p]) && t.contains(t[q]));
        assert(!overlaps(t[q], t[p]));
        assert(in_range(t[p], len));
        assert(in_range(t[q], len));
    }
}

fn overlaps_exec(a: &Replacement, b: &Replacement) -> (r: bool)
    ensures
        r == overlaps(a@, b@),
{
    (a.start < b.end && b.start < a.end) || (a.start == b.start && a.end == b.end)
}

fn max_start_exec(f: &Fix) -> (r: usize)
    ensures
        r == max_start(f@),
{
    let mut m: usize = 0;
    let mut i: usize = 0;
    assert(f@.take(0) =~= Seq::<ReplacementView>::empty());
    while i < f.replacements.len()
        invariant
            i <= f.replacements@.len(),
            f@.len() == f.replacements@.len(),
            m == max_start(f@.take(i as int)),
        decreases f.replacements@.len() - i,
    {
        assert(f@.take(i + 1).drop_last() =~= f@.take(i as int));
        assert(f@.take(i + 1).last() == f.replacements@[i as int]@);
        if f.replacements[i].start > m {
            m = f.replacements[i].start;
        }
        i = i + 1;
    }
    assert(f@.take(i as int) =~= f@);
    m
}

fn fix_fits_exec(acc: &Vec<Replacement>, f: &Fix, len: usize) -> (r: bool)
    ensures
        r == fix_fits(replacement_views(acc@), f@, len as int),
{
    let ghost fv = f@;
    let ghost av = replacement_views(acc@);
    let n = f.replacements.len();
    let mut i: usize = 0;
    while i < n
        invariant
            i <= n,
            n == fv.len(),
            fv == f@,
            forall|p: int| 0 <= p < i ==> in_range(#[trigger] fv[p], len as int),
        decreases n - i,
    {
        let r = &f.replacements[i];
        assert(fv[i as int] == r@);
        if !(r.start <= r.end && r.end <= len) {
            return false;
        }
        i = i + 1;
    }
    let mut i: usize = 0;
    while i < n
        invariant
            i <= n,
            n == fv.len(),
            fv == f@,
            forall|p: int, q: int|
                0 <= p < i && p < q < n ==> !overlaps(#[trigger] fv[p], #[trigger] fv[q]),
        decreases n - i,
    {
        let mut j: usize = i + 1;
        while j < n
            invariant
                i < n,
                i + 1 <= j <= n,
                n == fv.len(),
                fv == f@,
                forall|p: int, q: int|
                    0 <= p < i && p < q < n ==> !overlaps(#[trigger] fv[p], #[trigger] fv[q]),
                forall|q: int| i < q < j ==> !overlaps(fv[i as int], #[trigger] fv[q]),
            decreases n - j,
        {
            assert(fv[i as int] == f.replacements@[i as int]@);
            assert(fv[j as int] == f.replacements@[j as int]@);
            if overlaps_exec(&f.replacements[i], &f.replacements[j]) {
                return false;
            }
            j = j + 1;
        }
        i = i + 1;
    }
    let mut i: usize = 0;
    while i < n
        invariant
            i <= n,
            n == fv.len(),
            fv == f@,
            av == replacement_views(acc@),
            forall|p: int, q: int|
                0 <= p < i && 0 <= q < av.len() ==> !overlaps(#[trigger] fv[p], #[trigger] av[q]),
        decreases n - i,
    {
        let mut j: usize = 0;
        while j < acc.len()
            invariant
                i < n,
                j <= acc@.len(),
                n == fv.len(),
                fv == f@,
                av == replacement_views(acc@),
                forall|p: int, q: int|
                    0 <= p < i && 0 <= q < av.len() ==> !overlaps(#[trigger] fv[p], #[trigger] av[q]),
                forall|q: int| 0 <= q < j ==> !overlaps(fv[i as int], #[trigger] av[q]),
            decreases acc@.len() - j,
        {
            assert(fv[i as int] == f.replacements@[i as int]@);
            assert(av[j as int] == acc@[j as int]@);
            if overlaps_exec(&f.replacements[i], &acc[j]) {
                return false;
            }
            j = j + 1;
        }
        i = i + 1;
    }
    true
}

/// Apply a set of fixes to source bytes, returning the fixed source and
/// how many replacements were applied. Each fix is applied as a whole or
/// not at all: fixes are taken last in the file first (by the greatest
/// start of their replacements), and a fix is skipped when one of its
/// replacements lies out of range or clashes with another of its own or
/// with one already applied. The applied replacements are spliced in back
/// to front, so that earlier offsets stay valid.
pub fn apply_fixes(source: &[u8], fixes: &[Fix]) -> (r: (Vec<u8>, usize))
    ensures
        r.0@ == spec_apply_fixes(source@, fixes@),
        r.1 == spec_fix_count(source@, fixes@),
{
    let ghost fv = fix_views(fixes@);
    let len = source.len();
    // The key of each fix.
    let mut keys: Vec<usize> = Vec::new();
    let mut i: usize = 0;
    while i < fixes.len()
        invariant
            i <= fixes@.len(),
            fv == fix_views(fixes@),
            keys@.len() == i,
            forall|j: int| 0 <= j < i ==> keys@[j] == max_start(#[trigger] fv[j]),
        decreases fixes@.len() - i,
    {
        keys.push(max_start_exec(&fixes[i]));
        i = i + 1;
    }
    // The order in which the fixes are considered (stable insertion sort).
    let mut order: Vec<usize> = Vec::new();
    let mut i: usize = 0;
    assert(picked(fv, order@) =~= sort_fixes_desc(fv.take(0)));
    while i < fixes.len()
        invariant
            i <= fixes@.len(),
            fv == fix_views(fixes@),
            fv.len() == fixes@.len(),
            keys@.len() == fixes@.len(),
            forall|j: int| 0 <= j < keys@.len() ==> keys@[j] == max_start(#[trigger] fv[j]),
            forall|j: int| 0 <= j < order@.len() ==> #[trigger] order@[j] < fixes@.len(),
            picked(fv, order@) == sort_fixes_desc(fv.take(i as int)),
        decreases fixes@.len() - i,
    {
        let ki = keys[i];
        let mut k: usize = order.len();
        while k > 0 && keys[order[k - 1]] < ki
            invariant
                k <= order@.len(),
                fv.len() == fixes@.len(),
                keys@.len() == fixes@.len(),
                forall|j: int| 0 <= j < keys@.len() ==> keys@[j] == max_start(#[trigger] fv[j]),
                forall|j: int| 0 <= j < order@.len() ==> #[trigger] order@[j] < fixes@.len(),
                ki == max_start(fv[i as int]),
                forall|j: int|
                    k <= j < order@.len() ==> max_start(#[trigger] fv[order@[j] as int]) < ki,
            decreases k,
        {
            k = k - 1;
        }
        let ghost old_picked = picked(fv, order@);
        proof {
            assert forall|j: int| k <= j < old_picked.len() implies max_start(
                #[trigger] old_picked[j],
            ) < max_start(fv[i as int]) by {
                assert(old_picked[j] == fv[order@[j] as int]);
            }
            if k > 0 {
                assert(old_picked[k - 1] == fv[order@[k - 1] as int]);
            }
            lemma_insert_fix_at(old_picked, fv[i as int], k as int);
            assert(fv.take(i + 1).drop_last() =~= fv.take(i as int));
            assert(fv.take(i + 1).last() == fv[i as int]);
        }
        order.insert(k, i);
        proof {
            assert(picked(fv, order@) =~= old_picked.take(k as int).push(fv[i as int])
                + old_picked.skip(k as int));
        }
        i = i + 1;
    }
    assert(fv.take(i as int) =~= fv);
    let ghost sfv = sort_fixes_desc(fv);
    // Accept whole fixes, in that order.
    let mut acc: Vec<Replacement> = Vec::new();
    let mut m: usize = 0;
    assert(replacement_views(acc@) =~= accept(sfv.take(0), len as int));
    while m < order.len()
        invariant
            m <= order@.len(),
            fv == fix_views(fixes@),
            fv.len() == fixes@.len(),
            picked(fv, order@) == sfv,
            forall|j: int| 0 <= j < order@.len() ==> #[trigger] order@[j] < fixes@.len(),
            replacement_views(acc@) == accept(sfv.take(m as int), len as int),
        decreases order@.len() - m,
    {
        let f = &fixes[order[m]];
        proof {
            assert(sfv[m as int] == fv[order@[m as int] as int]);
            assert(f@ == sfv[m as int]);
            assert(sfv.take(m + 1).drop_last() =~= sfv.take(m as int));
            assert(sfv.take(m + 1).last() == sfv[m as int]);
        }
        if fix_fits_exec(&acc, f, len) {
            let ghost before = replacement_views(acc@);
            let mut j: usize = 0;
            assert(replacement_views(acc@) =~= before + f@.take(0));
            while j < f.replacements.len()
                invariant
                    j <= f.replacements@.len(),
                    f@.len() == f.replacements@.len(),
                    replacement_views(acc@) == before + f@.take(j as int),
                decreases f.replacements@.len() - j,
            {
                let ghost prev = acc@;
                let d = f.replacements[j].duplicate();
                acc.push(d);
                proof {
                    assert(replacement_views(acc@) =~= replacement_views(prev).push(d@));
                    assert(f@.take(j + 1) =~= f@.take(j as int).push(f.replacements@[j as int]@));
                    assert(replacement_views(acc@) =~= before + f@.take(j + 1));
                }
                j = j + 1;
            }
            assert(f@.take(j as int) =~= f@);
        }
        m = m + 1;
    }
    assert(sfv.take(m as int) =~= sfv);
    let ghost all = replacement_views(acc@);
    let count = acc.len();

    // Stable insertion sort by descending start.
    let mut sorted: Vec<Replacement> = Vec::new();
    let mut i: usize = 0;
    while i < acc.len()
        invariant
            i <= acc.len(),
            all == replacement_views(acc@),
            replacement_views(sorted@) == sort_by_start_desc(all.take(i as int)),
        decreases acc.len() - i,
    {
        let x = acc[i].duplicate();
        let mut k: usize = sorted.len();
        while k > 0 && (sorted[k - 1].start < x.start || (sorted[k - 1].start == x.start
            && sorted[k - 1].end < x.end))
            invariant
                k <= sorted.len(),
                forall|j: int| k <= j < sorted.len() ==> lex_less((#[trigger] sorted@[j])@, x@),
            decreases k,
        {
            k = k - 1;
        }
        let ghost old_sorted = replacement_views(sorted@);
        proof {
            lemma_insert_at(old_sorted, x@, k as int);
            assert(all.take(i + 1).drop_last() =~= all.take(i as int));
        }
        sorted.insert(k, x);
        proof {
            assert(replacement_views(sorted@) =~= old_sorted.take(k as int).push(x@)
                + old_sorted.skip(k as int));
        }
        i = i + 1;
    }
    assert(all.take(i as int) =~= all);

    // Splice back to front.
    let ghost reps = replacement_views(sorted@);
    proof {
        lemma_accept_separate(sfv, len as int);
        lemma_sorted_back_to_front(all, len as int);
    }
    let mut result: Vec<u8> = Vec::new();
    let mut p: usize = 0;
    while p < source.len()
        invariant
            p <= source.len(),
            result@ == source@.take(p as int),
        decreases source.len() - p,
    {
        result.push(source[p]);
        p = p + 1;
        assert(result@ =~= source@.take(p as int));
    }
    assert(source@.take(p as int) =~= source@);
    let mut i: usize = 0;
    assert(reps.skip(0) =~= reps);
    while i < sorted.len()
        invariant
            i <= sorted.len(),
            reps == replacement_views(sorted@),
            back_to_front(reps),
            forall|j: int| 0 <= j < reps.len() ==> #[trigger] reps[j].0 <= reps[j].1,
            forall|j: int| i <= j < reps.len() ==> #[trigger] reps[j].1 <= result@.len(),
            spec_apply_fixes(source@, fixes@) == splice_all(result@, reps.skip(i as int)),
        decreases sorted.len() - i,
    {
        let r = &sorted[i];
        assert(reps[i as int] == r@);
        assert(reps.skip(i as int).drop_first() =~= reps.skip(i + 1));
        assert(reps.skip(i as int)[0] == r@);
        let bytes = r.text.as_str().as_bytes();
        let mut next: Vec<u8> = Vec::new();
        let mut q: usize = 0;
        while q < r.start
            invariant
                q <= r.start <= r.end <= result.len(),
                next@ == result@.take(q as int),
            decreases r.start - q,
        {
            next.push(result[q]);
            q = q + 1;
            assert(next@ =~= result@.take(q as int));
        }
        let mut q: usize = 0;
        while q < bytes.len()
            invariant
                q <= bytes.len(),
                next@ == result@.take(r.start as int) + bytes@.take(q as int),
            decreases bytes.len() - q,
        {
            next.push(bytes[q]);
            q = q + 1;
            assert(next@ =~= result@.take(r.start as int) + bytes@.take(q as int));
        }
        let mut q: usize = r.end;
        while q < result.len()
            invariant
                r.end <= q <= result.len(),
                next@ == result@.take(r.start as int) + bytes@ + result@.subrange(
                    r.end as int,
                    q as int,
                ),
            decreases result.len() - q,
        {
            next.push(result[q]);
            q = q + 1;
            assert(next@ =~= result@.take(r.start as int) + bytes@ + result@.subrange(
                r.end as int,
                q as int,
            ));
        }
        proof {
            assert(bytes@.take(bytes@.len() as int) =~= bytes@);
            assert(result@.subrange(r.end as int, result@.len() as int) =~= result@.skip(
                r.end as int,
            ));
            assert forall|j: int| i + 1 <= j < reps.len() implies #[trigger] reps[j].1
                <= next@.len() by {
                assert(reps[j].1 <= reps[i as int].0);
            }
        }
        result = next;
        i = i + 1;
    }
    (result, count)
}


/// Whether `lib_ruby_parser` parses `source` without an error-level diagnostic.
pub uninterp spec fn ruby_syntax_accepted(source: Seq<u8>) -> bool;

/// Parses `source` with `lib_ruby_parser::Parser::new(.., Default::default()).do_parse()`
/// and reports whether none of the resulting diagnostics has level
/// `ErrorLevel::Error`. The contract names that result and claims only that it
/// is determined by the bytes; what the parser accepts is not stated.
#[verifier::external_body]
pub fn verify_syntax(source: &[u8]) -> (ok: bool)
    ensures
        ok == ruby_syntax_accepted(source@),
{
    let result = lib_ruby_parser::Parser::new(source.to_vec(), Default::default()).do_parse();
    !result.diagnostics.iter().any(|d| d.level == lib_ruby_parser::ErrorLevel::Error)
}

/// Apply `fixes` to `source` and keep the result only if it still parses:
/// `Some((fixed, applied))`, with the number of replacements applied, when
/// the fixed source is accepted by the syntax check; `None` when the fixes
/// would produce invalid syntax.
pub fn fixed_source(source: &[u8], fixes: &[Fix]) -> (r: Option<(Vec<u8>, usize)>)
    ensures
        r is Some <==> ruby_syntax_accepted(spec_apply_fixes(source@, fixes@)),
        r matches Some((v, n)) ==> v@ == spec_apply_fixes(source@, fixes@) && n == spec_fix_count(
            source@,
            fixes@,
        ),
{
    let (fixed, n) = apply_fixes(source, fixes);
    if verify_syntax(fixed.as_slice()) {
        Some((fixed, n))
    } else {
        None
    }
}

proof fn lemma_insert_props(sorted: Seq<ReplacementView>, x: ReplacementView)
    requires
        forall|i: int, j: int| 0 <= i < j < sorted.len() ==> !lex_less(sorted[i], sorted[j]),
    ensures
        insert_by_start_desc(sorted, x).len() == sorted.len() + 1,
        insert_by_start_desc(sorted, x).to_multiset() == sorted.to_multiset().insert(x),
        forall|i: int, j: int|
            0 <= i < j < insert_by_start_desc(sorted, x).len() ==> !lex_less(
                insert_by_start_desc(sorted, x)[i],
                insert_by_start_desc(sorted, x)[j],
            ),
    decreases sorted.len(),
{
    broadcast use vstd::seq_lib::group_to_multiset_ensures;

    if sorted.len() == 0 {
        assert(seq![x] =~= Seq::<ReplacementView>::empty().push(x));
    } else if !lex_less(sorted.last(), x) {
        let r = sorted.push(x);
        assert forall|i: int, j: int| 0 <= i < j < r.len() implies !lex_less(r[i], r[j]) by {
            if j == sorted.len() {
                if i < sorted.len() - 1 {
                    assert(!lex_less(sorted[i], sorted[sorted.len() - 1]));
                }
            } else {
                assert(r[i] == sorted[i] && r[j] == sorted[j]);
            }
        }
    } else {
        let rest = sorted.drop_last();
        lemma_insert_props(rest, x);
        let ins = insert_by_start_desc(rest, x);
        assert(sorted =~= rest.push(sorted.last()));
        assert forall|i: int| 0 <= i < ins.len() implies !lex_less(ins[i], sorted.last()) by {
            assert(ins.to_multiset().count(ins[i]) > 0);
            assert(rest.to_multiset().insert(x).count(ins[i]) > 0);
            if ins[i] != x {
                assert(rest.to_multiset().count(ins[i]) > 0);
                assert(rest.contains(ins[i]));
                let k = choose|k: int| 0 <= k < rest.len() && rest[k] == ins[i];
                assert(sorted[k] == rest[k]);
            }
        }
    }
}

/// Sorting by descending start keeps every replacement exactly once and
/// orders the result by descending start, then descending end.
pub proof fn lemma_sort_by_start_desc(s: Seq<ReplacementView>)
    ensures
        sort_by_start_desc(s).len() == s.len(),
        sort_by_start_desc(s).to_multiset() == s.to_multiset(),
        forall|i: int, j: int|
            0 <= i < j < sort_by_start_desc(s).len() ==> !lex_less(
                sort_by_start_desc(s)[i],
                sort_by_start_desc(s)[j],
            ),
    decreases s.len(),
{
    broadcast use vstd::seq_lib::group_to_multiset_ensures;

    if s.len() == 0 {
    } else {
        lemma_sort_by_start_desc(s.drop_last());
        lemma_insert_props(sort_by_start_desc(s.drop_last()), s.last());
        assert(s =~= s.drop_last().push(s.last()));
    }
}

proof fn lemma_flat_push(fs: Seq<Seq<ReplacementView>>, x: Seq<ReplacementView>)
    ensures
        flat(fs.push(x)) == flat(fs) + x,
{
    assert(fs.push(x).drop_last() =~= fs);
}

proof fn lemma_insert_fix_ms(sorted: Seq<Seq<ReplacementView>>, x: Seq<ReplacementView>)
    ensures
        flat(insert_fix_desc(sorted, x)).to_multiset() == flat(sorted).to_multiset().add(
            x.to_multiset(),
        ),
    decreases sorted.len(),
{
    broadcast use vstd::seq_lib::lemma_multiset_commutative;
    broadcast use vstd::multiset::group_multiset_axioms;

    if sorted.len() == 0 {
        lemma_flat_push(sorted, x);
        assert(seq![x] =~= sorted.push(x));
        assert(flat(sorted) =~= Seq::<ReplacementView>::empty());
    } else if max_start(sorted.last()) >= max_start(x) {
        lemma_flat_push(sorted, x);
    } else {
        let pre = sorted.drop_last();
        let last = sorted.last();
        lemma_insert_fix_ms(pre, x);
        lemma_flat_push(insert_fix_desc(pre, x), last);
        lemma_flat_push(pre, last);
        assert(sorted =~= pre.push(last));
        assert(flat(insert_fix_desc(sorted, x)).to_multiset() =~= flat(sorted).to_multiset().add(
            x.to_multiset(),
        ));
    }
}

proof fn lemma_sort_fixes_ms(fs: Seq<Seq<ReplacementView>>)
    ensures
        flat(sort_fixes_desc(fs)).to_multiset() == flat(fs).to_multiset(),
    decreases fs.len(),
{
    broadcast use vstd::seq_lib::lemma_multiset_commutative;
    broadcast use vstd::multiset::group_multiset_axioms;

    if fs.len() > 0 {
        lemma_sort_fixes_ms(fs.drop_last());
        lemma_insert_fix_ms(sort_fixes_desc(fs.drop_last()), fs.last());
        lemma_flat_push(fs.drop_last(), fs.last());
        assert(fs =~= fs.drop_last().push(fs.last()));
    }
}

proof fn lemma_separate_prefix(a: Seq<ReplacementView>, b: Seq<ReplacementView>, len: int)
    requires
        separate(a + b, len),
    ensures
        separate(a, len),
{
    let s = a + b;
    assert forall|i: int, j: int| 0 <= i < a.len() && 0 <= j < a.len() && i != j implies a[i]
        != a[j] by {
        assert(s[i] == a[i] && s[j] == a[j]);
    }
    assert forall|i: int| 0 <= i < a.len() implies in_range(#[trigger] a[i], len) by {
        assert(s[i] == a[i]);
    }
    assert forall|x: ReplacementView, y: ReplacementView|
        #[trigger] a.contains(x) && #[trigger] a.contains(y) && x != y implies !overlaps(x, y) by {
        let i = choose|i: int| 0 <= i < a.len() && a[i] == x;
        let j = choose|j: int| 0 <= j < a.len() && a[j] == y;
        assert(s[i] == x && s[j] == y);
        assert(s.contains(x) && s.contains(y));
    }
}

/// When all replacements are separate, every fix fits in turn.
proof fn lemma_accept_all(fs: Seq<Seq<ReplacementView>>, len: int)
    requires
        separate(flat(fs), len),
    ensures
        accept(fs, len) == flat(fs),
    decreases fs.len(),
{
    if fs.len() > 0 {
        let pre = fs.drop_last();
        let f = fs.last();
        let s = flat(fs);
        assert(s == flat(pre) + f);
        lemma_separate_prefix(flat(pre), f, len);
        lemma_accept_all(pre, len);
        let acc = flat(pre);
        let n = acc.len();
        assert forall|i: int| 0 <= i < f.len() implies in_range(#[trigger] f[i], len) by {
            assert(s[n + i] == f[i]);
        }
        assert forall|i: int, j: int| 0 <= i < j < f.len() implies !overlaps(
            #[trigger] f[i],
            #[trigger] f[j],
        ) by {
            assert(s[n + i] == f[i] && s[n + j] == f[j]);
            assert(s.contains(f[i]) && s.contains(f[j]));
        }
        assert forall|i: int, j: int| 0 <= i < f.len() && 0 <= j < acc.len() implies !overlaps(
            #[trigger] f[i],
            #[trigger] acc[j],
        ) by {
            assert(s[n + i] == f[i] && s[j] == acc[j]);
            assert(s.contains(f[i]) && s.contains(acc[j]));
        }
    }
}

/// Two lists that both run back to front and hold the same replacements
/// are the same list.
proof fn lemma_back_to_front_unique(x: Seq<ReplacementView>, y: Seq<ReplacementView>)
    requires
        back_to_front(x),
        back_to_front(y),
        x.to_multiset() == y.to_multiset(),
    ensures
        x == y,
    decreases x.len(),
{
    broadcast use vstd::seq_lib::group_to_multiset_ensures;
    broadcast use vstd::multiset::group_multiset_axioms;

    if x.len() == 0 {
        vstd::seq_lib::to_multiset_len(x);
        vstd::seq_lib::to_multiset_len(y);
        assert(y.len() == 0);
        assert(x =~= y);
    } else {
        vstd::seq_lib::to_multiset_len(x);
        vstd::seq_lib::to_multiset_len(y);
        assert(y.len() == x.len());
        assert(x.contains(x[0]));
        assert(x.to_multiset().count(x[0]) > 0);
        assert(y.contains(x[0]));
        let k = choose|k: int| 0 <= k < y.len() && y[k] == x[0];
        assert(y.contains(y[0]));
        assert(y.to_multiset().count(y[0]) > 0);
        assert(x.contains(y[0]));
        let i = choose|i: int| 0 <= i < x.len() && x[i] == y[0];
        if i > 0 {
            assert(lex_less(x[i], x[0]));
            if k > 0 {
                assert(lex_less(y[k], y[0]));
            }
        }
        assert(x[0] == y[0]);
        assert(x.remove(0) =~= x.drop_first());
        assert(y.remove(0) =~= y.drop_first());
        let xd = x.drop_first();
        let yd = y.drop_first();
        assert forall|p: int, q: int| 0 <= p < q < xd.len() implies (#[trigger] xd[q]).1 <= (
        #[trigger] xd[p]).0 && lex_less(xd[q], xd[p]) by {
            assert(xd[q] == x[q + 1] && xd[p] == x[p + 1]);
        }
        assert forall|p: int, q: int| 0 <= p < q < yd.len() implies (#[trigger] yd[q]).1 <= (
        #[trigger] yd[p]).0 && lex_less(yd[q], yd[p]) by {
            assert(yd[q] == y[q + 1] && yd[p] == y[p + 1]);
        }
        lemma_back_to_front_unique(xd, yd);
        assert forall|j: int| 0 <= j < x.len() implies x[j] == y[j] by {
            if j > 0 {
                assert(x[j] == xd[j - 1]);
                assert(y[j] == yd[j - 1]);
            }
        }
        assert(x =~= y);
    }
}

proof fn lemma_splice_all_prefix(a: Seq<u8>, b: Seq<u8>, rest: Seq<ReplacementView>)
    requires
        back_to_front(rest),
        forall|j: int| 0 <= j < rest.len() ==> #[trigger] rest[j].0 <= rest[j].1 && rest[j].1 <= a.len(),
    ensures
        splice_all(a + b, rest) == splice_all(a, rest) + b,
    decreases rest.len(),
{
    if rest.len() > 0 {
        let r = rest[0];
        let t = encode_utf8(r.2);
        let a2 = splice_bytes(a, r.0 as int, r.1 as int, t);
        assert(splice_bytes(a + b, r.0 as int, r.1 as int, t) =~= a2 + b);
        let tail = rest.drop_first();
        assert forall|p: int, q: int| 0 <= p < q < tail.len() implies (#[trigger] tail[q]).1 <= (
        #[trigger] tail[p]).0 && lex_less(tail[q], tail[p]) by {
            assert(tail[q] == rest[q + 1] && tail[p] == rest[p + 1]);
        }
        assert forall|j: int| 0 <= j < tail.len() implies #[trigger] tail[j].0 <= tail[j].1
            && tail[j].1 <= a2.len() by {
            assert(tail[j] == rest[j + 1]);
            assert(rest[j + 1].1 <= rest[0].0);
        }
        lemma_splice_all_prefix(a2, b, tail);
    }
}

/// Splicing back-to-front, in-range replacements one after the other gives
/// the concatenation of the untouched pieces of the source and the texts.
pub proof fn lemma_splice_all_stitched(source: Seq<u8>, reps: Seq<ReplacementView>)
    requires
        back_to_front(reps),
        forall|j: int| 0 <= j < reps.len() ==> in_range(#[trigger] reps[j], source.len() as int),
    ensures
        splice_all(source, reps) == stitched(source, reps),
    decreases reps.len(),
{
    if reps.len() > 0 {
        let r = reps[0];
        assert(in_range(reps[0], source.len() as int));
        let t = encode_utf8(r.2);
        let a = source.take(r.0 as int);
        let b = t + source.skip(r.1 as int);
        let tail = reps.drop_first();
        assert(splice_bytes(source, r.0 as int, r.1 as int, t) =~= a + b);
        assert forall|p: int, q: int| 0 <= p < q < tail.len() implies (#[trigger] tail[q]).1 <= (
        #[trigger] tail[p]).0 && lex_less(tail[q], tail[p]) by {
            assert(tail[q] == reps[q + 1] && tail[p] == reps[p + 1]);
        }
        assert forall|j: int| 0 <= j < tail.len() implies #[trigger] tail[j].0 <= tail[j].1
            && tail[j].1 <= a.len() by {
            assert(tail[j] == reps[j + 1]);
            assert(reps[j + 1].1 <= reps[0].0);
            assert(in_range(reps[j + 1], source.len() as int));
        }
        lemma_splice_all_prefix(a, b, tail);
        assert forall|j: int| 0 <= j < tail.len() implies in_range(#[trigger] tail[j], a.len() as int) by {
            assert(tail[j] == reps[j + 1]);
            assert(reps[j + 1].1 <= reps[0].0);
            assert(in_range(reps[j + 1], source.len() as int));
        }
        lemma_splice_all_stitched(a, tail);
        assert(stitched(a, tail) + t + source.skip(r.1 as int) =~= stitched(a, tail) + b);
    }
}

/// When the replacements of all fixes lie in range and no two clash, every
/// fix is applied: all replacements are counted, and the result is each of
/// them spliced in, back to front, which is the source's untouched pieces
/// and the replacements' texts concatenated in byte order.
pub proof fn lemma_all_fixes_applied(source: Seq<u8>, fixes: Seq<Fix>)
    requires
        separate(flatten_fixes(fixes), source.len() as int),
    ensures
        spec_fix_count(source, fixes) == flatten_fixes(fixes).len(),
        spec_apply_fixes(source, fixes) == splice_all(
            source,
            sort_by_start_desc(flatten_fixes(fixes)),
        ),
        spec_apply_fixes(source, fixes) == stitched(source, sort_by_start_desc(flatten_fixes(fixes))),
{
    broadcast use vstd::seq_lib::group_to_multiset_ensures;

    let len = source.len() as int;
    let fs = fix_views(fixes);
    let sfs = sort_fixes_desc(fs);
    lemma_sort_fixes_ms(fs);
    lemma_separate_ms(flat(fs), flat(sfs), len);
    lemma_accept_all(sfs, len);
    assert(flat(sfs).to_multiset().len() == flat(fs).to_multiset().len());
    lemma_sorted_back_to_front(flat(sfs), len);
    lemma_sorted_back_to_front(flat(fs), len);
    lemma_sort_by_start_desc(flat(sfs));
    lemma_sort_by_start_desc(flat(fs));
    lemma_back_to_front_unique(sort_by_start_desc(flat(sfs)), sort_by_start_desc(flat(fs)));
    let sorted = sort_by_start_desc(flat(fs));
    assert forall|j: int| 0 <= j < sorted.len() implies in_range(#[trigger] sorted[j], len) by {}
    lemma_splice_all_stitched(source, sorted);
}

/// Applying fixes does not depend on the order of the fixes or of their
/// replacements: two lists of fixes holding the same replacements, in range
/// and without clashes, give the same result and the same count.
pub proof fn lemma_fix_order_irrelevant(source: Seq<u8>, f1: Seq<Fix>, f2: Seq<Fix>)
    requires
        separate(flatten_fixes(f1), source.len() as int),
        flatten_fixes(f1).to_multiset() == flatten_fixes(f2).to_multiset(),
    ensures
        spec_apply_fixes(source, f1) == spec_apply_fixes(source, f2),
        spec_fix_count(source, f1) == spec_fix_count(source, f2),
{
    broadcast use vstd::seq_lib::group_to_multiset_ensures;

    let len = source.len() as int;
    lemma_separate_ms(flatten_fixes(f1), flatten_fixes(f2), len);
    lemma_all_fixes_applied(source, f1);
    lemma_all_fixes_applied(source, f2);
    assert(flatten_fixes(f1).to_multiset().len() == flatten_fixes(f2).to_multiset().len());
    lemma_sorted_back_to_front(flatten_fixes(f1), len);
    lemma_sorted_back_to_front(flatten_fixes(f2), len);
    lemma_sort_by_start_desc(flatten_fixes(f1));
    lemma_sort_by_start_desc(flatten_fixes(f2));
    lemma_back_to_front_unique(
        sort_by_start_desc(flatten_fixes(f1)),
        sort_by_start_desc(flatten_fixes(f2)),
    );
}

/// The fixes of `fs` that `keep` marks, in order.
pub open spec fn select(fs: Seq<Seq<ReplacementView>>, keep: Seq<bool>) -> Seq<
    Seq<ReplacementView>,
>
    decreases fs.len(),
{
    if fs.len() == 0 {
        seq![]
    } else {
        let rest = select(fs.drop_last(), keep.drop_last());
        if keep.last() {
            rest.push(fs.last())
        } else {
            rest
        }
    }
}

proof fn lemma_accept_select(fs: Seq<Seq<ReplacementView>>, len: int) -> (keep: Seq<bool>)
    ensures
        keep.len() == fs.len(),
        accept(fs, len) == flat(select(fs, keep)),
    decreases fs.len(),
{
    if fs.len() == 0 {
        seq![]
    } else {
        let k0 = lemma_accept_select(fs.drop_last(), len);
        let fits = fix_fits(accept(fs.drop_last(), len), fs.last(), len);
        let keep = k0.push(fits);
        assert(keep.drop_last() =~= k0);
        lemma_flat_push(select(fs.drop_last(), k0), fs.last());
        keep
    }
}

/// Each fix is applied whole or not at all: the replacements applied are
/// exactly those of some of the fixes, each taken whole, in the order in
/// which the fixes are considered.
pub proof fn lemma_fixes_applied_whole(fixes: Seq<Fix>, len: int) -> (keep: Seq<bool>)
    ensures
        keep.len() == sort_fixes_desc(fix_views(fixes)).len(),
        accepted_replacements(fixes, len) == flat(select(sort_fixes_desc(fix_views(fixes)), keep)),
{
    lemma_accept_select(sort_fixes_desc(fix_views(fixes)), len)
}

/// Applying no fixes leaves the source unchanged and applies nothing.
pub proof fn lemma_apply_no_fixes(source: Seq<u8>)
    ensures
        spec_apply_fixes(source, Seq::<Fix>::empty()) == source,
        spec_fix_count(source, Seq::<Fix>::empty()) == 0,
{
    assert(fix_views(Seq::<Fix>::empty()) =~= Seq::<Seq<ReplacementView>>::empty());
}

/// A single fix with one in-range replacement replaces exactly its byte
/// range with the text's UTF-8 bytes.
pub proof fn lemma_apply_single_replacement(source: Seq<u8>, f: Fix)
    requires
        f@.len() == 1,
        f@[0].0 <= f@[0].1 <= source.len(),
    ensures
        spec_apply_fixes(source, seq![f]) == splice_bytes(
            source,
            f@[0].0 as int,
            f@[0].1 as int,
            encode_utf8(f@[0].2),
        ),
        spec_fix_count(source, seq![f]) == 1,
{
    let fixes = seq![f];
    let fs = fix_views(fixes);
    assert(fs =~= seq![f@]);
    assert(fs.drop_last() =~= Seq::<Seq<ReplacementView>>::empty());
    assert(flat(fs.drop_last()) =~= Seq::<ReplacementView>::empty());
    assert(fs.last() == f@);
    assert(flat(fs) =~= f@);
    let s = f@;
    assert(s =~= seq![s[0]]);
    assert(s.no_duplicates());
    assert forall|a: ReplacementView, b: ReplacementView|
        #[trigger] s.contains(a) && #[trigger] s.contains(b) && a != b implies !overlaps(a, b) by {
        let i = choose|i: int| 0 <= i < s.len() && s[i] == a;
        let j = choose|j: int| 0 <= j < s.len() && s[j] == b;
    }
    lemma_all_fixes_applied(source, fixes);
    assert(s.drop_last() =~= Seq::<ReplacementView>::empty());
    assert(sort_by_start_desc(s.drop_last()) =~= Seq::<ReplacementView>::empty());
    assert(sort_by_start_desc(s) =~= s);
    assert(s.drop_first() =~= Seq::<ReplacementView>::empty());
    let spliced = splice_bytes(source, s[0].0 as int, s[0].1 as int, encode_utf8(s[0].2));
    assert(splice_all(spliced, s.drop_first()) == spliced);
    assert(splice_all(source, s) == splice_all(spliced, s.drop_first()));
}

} // verus!
