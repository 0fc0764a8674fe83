//! Inline comment directives (`# rubyfast:disable ...`) and the set of
//! lines on which they switch rules off.
//!
//! Supported forms (the `fasterer:` prefix is accepted as well):
//! - `# rubyfast:disable rule` trailing code: that line only;
//! - `# rubyfast:disable rule` on a line of its own: from the next line up to
//!   the matching `# rubyfast:enable rule`, or to the end of the file;
//! - `# rubyfast:disable-next-line rule`: the next line;
//! - `all` in place of a rule, and comma-separated lists of rules.

use std::collections::HashSet;
use vstd::prelude::*;
use vstd::string::StringSliceAdditionalSpecFns;
use vstd::utf8::{decode_utf8, valid_utf8};

use crate::ast_helpers::{
    byte_offset_to_line, compute_newline_positions, count_below, lemma_newline_positions_sorted,
    newline_positions, strictly_increasing,
};
use crate::offense::{kind_count, kind_index, spec_from_config_key, OffenseKind};
use crate::text::{str_eq, str_from_utf8, strip_prefix, trim, trim_start_char, trim_start_matches_char, trim_ws};

verus! {

broadcast use vstd::std_specs::hash::group_hash_axioms;

/// What a directive applies to: every rule, or one rule.
#[derive(Debug, Clone, Copy, PartialEq, Eq, Structural)]
pub enum Target {
    All,
    Rule(OffenseKind),
}

/// A parsed inline directive with its (non-empty) list of targets.
#[derive(Debug)]
pub enum Directive {
    Disable(Vec<Target>),
    DisableNextLine(Vec<Target>),
    Enable(Vec<Target>),
}

/// The mathematical value of a directive.
pub enum DirectiveView {
    Disable(Seq<Target>),
    DisableNextLine(Seq<Target>),
    Enable(Seq<Target>),
}

impl View for Directive {
    type V = DirectiveView;

    open spec fn view(&self) -> DirectiveView {
        match self {
            Directive::Disable(t) => DirectiveView::Disable(t@),
            Directive::DisableNextLine(t) => DirectiveView::DisableNextLine(t@),
            Directive::Enable(t) => DirectiveView::Enable(t@),
        }
    }
}

/// The pieces of `s` between commas (`str::split(',')`): always at least
/// one piece, and one more than there are commas.
pub open spec fn split_commas(s: Seq<char>) -> Seq<Seq<char>>
    decreases s.len(),
{
    if s.len() == 0 {
        seq![seq![]]
    } else {
        let p = split_commas(s.drop_last());
        if s.last() == ',' {
            p.push(seq![])
        } else {
            p.update(p.len() - 1, p.last().push(s.last()))
        }
    }
}

/// What one trimmed piece of a target list names: nothing when empty or
/// unknown, `All` for `all`, or the rule with that configuration key.
pub open spec fn classify_target(t: Seq<char>) -> Seq<Target> {
    if t.len() == 0 {
        seq![]
    } else if t == "all"@ {
        seq![Target::All]
    } else {
        match spec_from_config_key(t) {
            Some(k) => seq![Target::Rule(k)],
            None => seq![],
        }
    }
}

/// The targets named by a list of pieces, in order.
pub open spec fn targets_of(pieces: Seq<Seq<char>>) -> Seq<Target>
    decreases pieces.len(),
{
    if pieces.len() == 0 {
        seq![]
    } else {
        targets_of(pieces.drop_last()) + classify_target(trim_ws(pieces.last()))
    }
}

/// The targets of a comma-separated list.
pub open spec fn spec_parse_targets(s: Seq<char>) -> Seq<Target> {
    targets_of(split_commas(s))
}

fn push_target(r: &mut Vec<Target>, t: &str)
    ensures
        final(r)@ == old(r)@ + classify_target(t@),
{
    if t.unicode_len() == 0 {
        assert(old(r)@ + classify_target(t@) =~= old(r)@);
    } else if str_eq(t, "all") {
        r.push(Target::All);
    } else {
        match OffenseKind::from_config_key(t) {
            Some(k) => {
                r.push(Target::Rule(k));
            },
            None => {
                assert(old(r)@ + classify_target(t@) =~= old(r)@);
            },
        }
    }
}

/// Parse comma-separated targets: `all` or rule keys. Pieces are trimmed;
/// empty pieces and unknown keys are dropped.
pub fn parse_targets(s: &str) -> (r: Vec<Target>)
    ensures
        r@ == spec_parse_targets(s@),
{
    let n = s.unicode_len();
    let mut r: Vec<Target> = Vec::new();
    let mut start: usize = 0;
    let mut i: usize = 0;
    assert(s@.take(0) =~= Seq::<char>::empty());
    while i < n
        invariant
            n == s@.len(),
            start <= i <= n,
            split_commas(s@.take(i as int)).len() >= 1,
            split_commas(s@.take(i as int)).last() == s@.subrange(start as int, i as int),
            r@ == targets_of(split_commas(s@.take(i as int)).drop_last()),
        decreases n - i,
    {
        let ghost p = split_commas(s@.take(i as int));
        assert(s@.take(i + 1).drop_last() =~= s@.take(i as int));
        assert(s@.take(i + 1).last() == s@[i as int]);
        let c = s.get_char(i);
        if c == ',' {
            let piece = trim(s.substring_char(start, i));
            push_target(&mut r, piece);
            proof {
                let q = split_commas(s@.take(i + 1));
                assert(q == p.push(seq![]));
                assert(q.drop_last() =~= p);
                assert(targets_of(p) == targets_of(p.drop_last()) + classify_target(
                    trim_ws(p.last()),
                ));
                assert(s@.subrange(i + 1, i + 1) =~= Seq::<char>::empty());
            }
            start = i + 1;
        } else {
            proof {
                let q = split_commas(s@.take(i + 1));
                assert(q == p.update(p.len() - 1, p.last().push(c)));
                assert(q.drop_last() =~= p.drop_last());
                assert(q.last() =~= s@.subrange(start as int, i + 1));
            }
        }
        i = i + 1;
    }
    let piece = trim(s.substring_char(start, n));
    push_target(&mut r, piece);
    proof {
        assert(s@.take(n as int) =~= s@);
        let p = split_commas(s@);
        assert(targets_of(p) == targets_of(p.drop_last()) + classify_target(trim_ws(p.last())));
    }
    r
}

/// A directive with its targets, or nothing when no target is named.
pub open spec fn nonempty_directive(d: DirectiveView, t: Seq<Target>) -> Option<DirectiveView> {
    if t.len() == 0 {
        None
    } else {
        Some(d)
    }
}

/// What follows the `rubyfast:` or `fasterer:` prefix, if present.
pub open spec fn directive_rest(stripped: Seq<char>) -> Option<Seq<char>> {
    if "rubyfast:"@.is_prefix_of(stripped) {
        Some(stripped.skip("rubyfast:"@.len() as int))
    } else if "fasterer:"@.is_prefix_of(stripped) {
        Some(stripped.skip("fasterer:"@.len() as int))
    } else {
        None
    }
}

/// The directive an action word and its target list make.
pub open spec fn directive_of_action(rest: Seq<char>) -> Option<DirectiveView> {
    if "disable-next-line"@.is_prefix_of(rest) {
        let t = spec_parse_targets(trim_ws(rest.skip("disable-next-line"@.len() as int)));
        nonempty_directive(DirectiveView::DisableNextLine(t), t)
    } else if "disable"@.is_prefix_of(rest) {
        let t = spec_parse_targets(trim_ws(rest.skip("disable"@.len() as int)));
        nonempty_directive(DirectiveView::Disable(t), t)
    } else if "enable"@.is_prefix_of(rest) {
        let t = spec_parse_targets(trim_ws(rest.skip("enable"@.len() as int)));
        nonempty_directive(DirectiveView::Enable(t), t)
    } else {
        None
    }
}

/// The directive a comment holds: after the leading `#`s and whitespace,
/// a `rubyfast:` or `fasterer:` prefix, an action, and at least one target.
pub open spec fn spec_parse_directive(comment: Seq<char>) -> Option<DirectiveView> {
    match directive_rest(trim_ws(trim_start_char(comment, '#'))) {
        Some(rest) => directive_of_action(trim_ws(rest)),
        None => None,
    }
}

fn directive_with(kind: u8, t: Vec<Target>) -> (r: Option<Directive>)
    requires
        kind < 3,
    ensures
        t@.len() == 0 ==> r is None,
        t@.len() > 0 ==> (r matches Some(d) && d@ == (if kind == 0 {
            DirectiveView::DisableNextLine(t@)
        } else if kind == 1 {
            DirectiveView::Disable(t@)
        } else {
            DirectiveView::Enable(t@)
        })),
{
    if t.len() == 0 {
        None
    } else if kind == 0 {
        Some(Directive::DisableNextLine(t))
    } else if kind == 1 {
        Some(Directive::Disable(t))
    } else {
        Some(Directive::Enable(t))
    }
}

/// Parse a comment into a directive, if it is one.
pub fn parse_directive(comment: &str) -> (r: Option<Directive>)
    ensures
        match r {
            Some(d) => spec_parse_directive(comment@) == Some(d@),
            None => spec_parse_directive(comment@) is None,
        },
{
    let stripped = trim(trim_start_matches_char(comment, '#'));
    let rest0 = match strip_prefix(stripped, "rubyfast:") {
        Some(r) => r,
        None => match strip_prefix(stripped, "fasterer:") {
            Some(r) => r,
            None => {
                return None;
            },
        },
    };
    let rest = trim(rest0);
    if let Some(t) = strip_prefix(rest, "disable-next-line") {
        directive_with(0, parse_targets(trim(t)))
    } else if let Some(t) = strip_prefix(rest, "disable") {
        directive_with(1, parse_targets(trim(t)))
    } else if let Some(t) = strip_prefix(rest, "enable") {
        directive_with(2, parse_targets(trim(t)))
    } else {
        None
    }
}

/// Whether a byte is ASCII whitespace (`u8::is_ascii_whitespace`: space,
/// tab, line feed, form feed, carriage return).
pub open spec fn is_ascii_ws(b: u8) -> bool {
    b == 32u8 || b == 9u8 || b == 10u8 || b == 12u8 || b == 13u8
}

/// Whether code precedes offset `begin` on its line: some byte before it
/// is not whitespace and no newline lies between that byte and `begin`.
pub open spec fn spec_is_trailing(source: Seq<u8>, begin: int) -> bool {
    exists|j: int|
        0 <= j < begin && !is_ascii_ws(#[trigger] source[j]) && forall|t: int|
            j < t < begin ==> source[t] != 10u8
}

/// Check if a comment at byte offset `begin` is trailing (has code before
/// it on the same line).
pub fn is_trailing_comment(source: &[u8], begin: usize) -> (r: bool)
    requires
        begin <= source@.len(),
    ensures
        r == spec_is_trailing(source@, begin as int),
{
    let mut k = begin;
    while k > 0
        invariant
            k <= begin <= source@.len(),
            forall|t: int| k <= t < begin ==> source@[t] != 10u8 && is_ascii_ws(#[trigger] source@[t]),
        decreases k,
    {
        let b = source[k - 1];
        if b == 10u8 {
            proof {
                assert forall|j: int|
                    0 <= j < begin && !is_ascii_ws(#[trigger] source@[j]) implies !(forall|t: int|
                    j < t < begin ==> source@[t] != 10u8) by {
                    if j < k - 1 {
                        assert(source@[k - 1] == 10u8);
                    }
                }
            }
            return false;
        }
        if !(b == 32u8 || b == 9u8 || b == 12u8 || b == 13u8) {
            assert(!is_ascii_ws(source@[k - 1]));
            return true;
        }
        k = k - 1;
    }
    false
}

/// The rule/line pairs recorded by one set of lines per rule, indexed by
/// the rule's position in the canonical order.
pub open spec fn rules_view(v: Seq<HashSet<usize>>) -> Set<(usize, OffenseKind)> {
    Set::new(|p: (usize, OffenseKind)| v[kind_index(p.1) as int]@.contains(p.0))
}

/// The lines `a <= l < b`.
pub open spec fn line_range(a: usize, b: usize) -> Set<usize> {
    Set::new(|l: usize| a <= l && l < b)
}

/// The pairs `(l, k)` with `a <= l < b`.
pub open spec fn rule_range(k: OffenseKind, a: usize, b: usize) -> Set<(usize, OffenseKind)> {
    Set::new(|p: (usize, OffenseKind)| p.1 == k && a <= p.0 && p.0 < b)
}

/// The state of a scan over the comments of a file: the lines disabled so
/// far for all rules and per rule, the start of an open `disable all`
/// block, and the open per-rule blocks with their first lines, oldest first.
#[verifier::ext_equal]
pub struct ScanState {
    pub all: Set<usize>,
    pub rules: Set<(usize, OffenseKind)>,
    pub block_all: Option<usize>,
    pub block_rules: Seq<(OffenseKind, usize)>,
}

/// The state before the first comment.
pub open spec fn initial_state() -> ScanState {
    ScanState {
        all: Set::empty(),
        rules: Set::empty(),
        block_all: None,
        block_rules: seq![],
    }
}

/// Disable the targets on one line.
pub open spec fn apply_to_line(st: ScanState, t: Seq<Target>, line: usize) -> ScanState {
    ScanState {
        all: if t.contains(Target::All) {
            st.all.insert(line)
        } else {
            st.all
        },
        rules: st.rules.union(
            Set::new(|p: (usize, OffenseKind)| p.0 == line && t.contains(Target::Rule(p.1))),
        ),
        block_all: st.block_all,
        block_rules: st.block_rules,
    }
}

/// The per-rule blocks a target list opens at line `start`, in order.
pub open spec fn rule_starts(t: Seq<Target>, start: usize) -> Seq<(OffenseKind, usize)>
    decreases t.len(),
{
    if t.len() == 0 {
        seq![]
    } else {
        rule_starts(t.drop_last(), start) + match t.last() {
            Target::Rule(k) => seq![(k, start)],
            Target::All => seq![],
        }
    }
}

/// Open blocks for the targets starting at line `start`; a new `all` block
/// replaces an open one.
pub open spec fn open_blocks(st: ScanState, t: Seq<Target>, start: usize) -> ScanState {
    ScanState {
        all: st.all,
        rules: st.rules,
        block_all: if t.contains(Target::All) {
            Some(start)
        } else {
            st.block_all
        },
        block_rules: st.block_rules + rule_starts(t, start),
    }
}

/// The index of the most recently opened block for rule `k`, if any.
pub open spec fn last_block_of(s: Seq<(OffenseKind, usize)>, k: OffenseKind) -> Option<int>
    decreases s.len(),
{
    if s.len() == 0 {
        None
    } else if s.last().0 == k {
        Some(s.len() - 1)
    } else {
        last_block_of(s.drop_last(), k)
    }
}

/// Close the block a target has open, disabling its lines up to (not
/// including) `end`; a target with no open block changes nothing.
pub open spec fn close_one(st: ScanState, t: Target, end: usize) -> ScanState {
    match t {
        Target::All => match st.block_all {
            Some(s) => ScanState {
                all: st.all.union(line_range(s, end)),
                rules: st.rules,
                block_all: None,
                block_rules: st.block_rules,
            },
            None => st,
        },
        Target::Rule(k) => match last_block_of(st.block_rules, k) {
            Some(i) => ScanState {
                all: st.all,
                rules: st.rules.union(rule_range(k, st.block_rules[i].1, end)),
                block_all: st.block_all,
                block_rules: st.block_rules.remove(i),
            },
            None => st,
        },
    }
}

/// Close the blocks of the targets, one after the other.
pub open spec fn close_blocks(st: ScanState, t: Seq<Target>, end: usize) -> ScanState
    decreases t.len(),
{
    if t.len() == 0 {
        st
    } else {
        close_one(close_blocks(st, t.drop_last(), end), t.last(), end)
    }
}

/// The effect of one comment on line `line`.
pub open spec fn step(st: ScanState, line: usize, trailing: bool, d: Option<DirectiveView>) -> ScanState {
    match d {
        None => st,
        Some(DirectiveView::Disable(t)) => if trailing {
            apply_to_line(st, t, line)
        } else {
            open_blocks(st, t, (line + 1) as usize)
        },
        Some(DirectiveView::DisableNextLine(t)) => apply_to_line(st, t, (line + 1) as usize),
        Some(DirectiveView::Enable(t)) => close_blocks(st, t, line),
    }
}

/// Whether every comment span starts inside the source and ends no
/// earlier than it starts (an end past the source is cut back to it).
pub open spec fn spans_valid(comments: Seq<(usize, usize)>, source: Seq<u8>) -> bool {
    forall|i: int| 0 <= i < comments.len() ==> #[trigger] comments[i].0 <= comments[i].1 && comments[i].0 <= source.len()
}

/// The end of a span, cut back to the end of a source of length `len`.
pub open spec fn clipped_end(end: usize, len: int) -> int {
    if end < len {
        end as int
    } else {
        len
    }
}

/// The directive a comment span holds; a span that is not UTF-8 holds none.
pub open spec fn comment_directive(source: Seq<u8>, span: (usize, usize)) -> Option<DirectiveView> {
    let text = source.subrange(span.0 as int, clipped_end(span.1, source.len() as int));
    if valid_utf8(text) {
        spec_parse_directive(decode_utf8(text))
    } else {
        None
    }
}

/// The 1-based line a comment starts on.
pub open spec fn comment_line(positions: Seq<usize>, c: (usize, usize)) -> usize {
    (1 + count_below(positions, c.0)) as usize
}

/// The state after the given comments, in order.
pub open spec fn scan_comments(
    comments: Seq<(usize, usize)>,
    source: Seq<u8>,
    positions: Seq<usize>,
) -> ScanState
    decreases comments.len(),
{
    if comments.len() == 0 {
        initial_state()
    } else {
        let c = comments.last();
        step(
            scan_comments(comments.drop_last(), source, positions),
            comment_line(positions, c),
            spec_is_trailing(source, c.0 as int),
            comment_directive(source, c),
        )
    }
}

/// Close the blocks still open at the end of a file of `total` lines: they
/// run to the last line inclusive.
pub open spec fn finish(st: ScanState, total: usize) -> (Set<usize>, Set<(usize, OffenseKind)>) {
    (
        match st.block_all {
            Some(s) => st.all.union(line_range(s, (total + 1) as usize)),
            None => st.all,
        },
        st.rules.union(
            Set::new(
                |p: (usize, OffenseKind)|
                    exists|i: int|
                        0 <= i < st.block_rules.len() && #[trigger] st.block_rules[i].0 == p.1
                            && st.block_rules[i].1 <= p.0 && p.0 <= total,
            ),
        ),
    )
}

/// The lines disabled for all rules and the rule/line pairs disabled by the
/// comments of a file with the given newline table.
pub open spec fn spec_disabled_set(
    comments: Seq<(usize, usize)>,
    source: Seq<u8>,
    positions: Seq<usize>,
) -> (Set<usize>, Set<(usize, OffenseKind)>) {
    finish(scan_comments(comments, source, positions), (positions.len() + 1) as usize)
}

/// Tracks which lines have which offense kinds disabled via inline comments.
#[derive(Debug)]
pub struct DisabledSet {
    /// Lines where all rules are disabled.
    all_disabled_lines: HashSet<usize>,
    /// For each rule (by its index), the lines where it is disabled.
    rule_disabled_lines: Vec<HashSet<usize>>,
}

impl DisabledSet {
    #[verifier::type_invariant]
    spec fn well_formed(self) -> bool {
        self.rule_disabled_lines@.len() == kind_count()
    }
}

impl View for DisabledSet {
    type V = (Set<usize>, Set<(usize, OffenseKind)>);

    closed spec fn view(&self) -> (Set<usize>, Set<(usize, OffenseKind)>) {
        (self.all_disabled_lines@, rules_view(self.rule_disabled_lines@))
    }
}

impl DisabledSet {
    /// Check if a given offense kind is disabled on a given line.
    pub fn is_disabled(&self, line: usize, kind: OffenseKind) -> (r: bool)
        ensures
            r == (self@.0.contains(line) || self@.1.contains((line, kind))),
    {
        proof {
            use_type_invariant(self);
        }
        self.all_disabled_lines.contains(&line) || self.rule_disabled_lines[kind.index()].contains(
            &line,
        )
    }
}

fn empty_rule_sets() -> (r: Vec<HashSet<usize>>)
    ensures
        r@.len() == kind_count(),
        rules_view(r@) == Set::<(usize, OffenseKind)>::empty(),
{
    let mut r: Vec<HashSet<usize>> = Vec::new();
    let mut i: usize = 0;
    while i < 19
        invariant
            i <= 19,
            r@.len() == i,
            forall|j: int| 0 <= j < i ==> (#[trigger] r@[j])@ == Set::<usize>::empty(),
        decreases 19 - i,
    {
        r.push(HashSet::new());
        i = i + 1;
    }
    assert(rules_view(r@) =~= Set::<(usize, OffenseKind)>::empty());
    r
}

fn insert_rule_line(rules: &mut Vec<HashSet<usize>>, line: usize, kind: OffenseKind)
    requires
        old(rules)@.len() == kind_count(),
    ensures
        final(rules)@.len() == kind_count(),
        rules_view(final(rules)@) == rules_view(old(rules)@).insert((line, kind)),
{
    let i = kind.index();
    rules[i].insert(line);
    assert(rules_view(rules@) =~= rules_view(old(rules)@).insert((line, kind)));
}

/// Disable the targets on one line: `all` adds the line to the lines
/// where every rule is off, a rule adds the line for that rule.
pub fn apply_targets_to_line(
    targets: &[Target],
    line: usize,
    all_disabled_lines: &mut HashSet<usize>,
    rule_disabled_lines: &mut Vec<HashSet<usize>>,
)
    requires
        old(rule_disabled_lines)@.len() == kind_count(),
    ensures
        final(rule_disabled_lines)@.len() == kind_count(),
        final(all_disabled_lines)@ == (if targets@.contains(Target::All) {
            old(all_disabled_lines)@.insert(line)
        } else {
            old(all_disabled_lines)@
        }),
        rules_view(final(rule_disabled_lines)@) == rules_view(old(rule_disabled_lines)@).union(
            Set::new(
                |p: (usize, OffenseKind)| p.0 == line && targets@.contains(Target::Rule(p.1)),
            ),
        ),
{
    let ghost all0 = all_disabled_lines@;
    let ghost rules0 = rules_view(rule_disabled_lines@);
    let mut i: usize = 0;
    while i < targets.len()
        invariant
            i <= targets@.len(),
            rule_disabled_lines@.len() == kind_count(),
            all_disabled_lines@ == (if targets@.take(i as int).contains(Target::All) {
                all0.insert(line)
            } else {
                all0
            }),
            rules_view(rule_disabled_lines@) == rules0.union(
                Set::new(
                    |p: (usize, OffenseKind)|
                        p.0 == line && targets@.take(i as int).contains(Target::Rule(p.1)),
                ),
            ),
        decreases targets@.len() - i,
    {
        let ghost pre = targets@.take(i as int);
        let ghost post = targets@.take(i + 1);
        assert(forall|x: Target| post.contains(x) <==> (pre.contains(x) || x == targets@[i as int])) by {
            assert forall|x: Target| post.contains(x) implies (pre.contains(x) || x == targets@[i as int]) by {
                let j = choose|j: int| 0 <= j < post.len() && post[j] == x;
                if j < i {
                    assert(pre[j] == x);
                }
            }
            assert forall|x: Target| (pre.contains(x) || x == targets@[i as int]) implies post.contains(x) by {
                if pre.contains(x) {
                    let j = choose|j: int| 0 <= j < pre.len() && pre[j] == x;
                    assert(post[j] == x);
                } else {
                    assert(post[i as int] == x);
                }
            }
        }
        match targets[i] {
            Target::All => {
                all_disabled_lines.insert(line);
                assert(all_disabled_lines@ =~= (if post.contains(Target::All) {
                    all0.insert(line)
                } else {
                    all0
                }));
                assert(rules0.union(
                    Set::new(|p: (usize, OffenseKind)| p.0 == line && pre.contains(Target::Rule(p.1))),
                ) =~= rules0.union(
                    Set::new(|p: (usize, OffenseKind)| p.0 == line && post.contains(Target::Rule(p.1))),
                ));
            },
            Target::Rule(kind) => {
                insert_rule_line(rule_disabled_lines, line, kind);
                assert(rules_view(rule_disabled_lines@) =~= rules0.union(
                    Set::new(|p: (usize, OffenseKind)| p.0 == line && post.contains(Target::Rule(p.1))),
                ));
            },
        }
        i = i + 1;
    }
    assert(targets@.take(i as int) =~= targets@);
}

/// The executable state of a scan over comments (see `ScanState`).
struct Scan {
    all: HashSet<usize>,
    rules: Vec<HashSet<usize>>,
    block_all: Option<usize>,
    block_rules: Vec<(OffenseKind, usize)>,
}

impl Scan {
    spec fn state(&self) -> ScanState {
        ScanState {
            all: self.all@,
            rules: rules_view(self.rules@),
            block_all: self.block_all,
            block_rules: self.block_rules@,
        }
    }

    spec fn wf(&self) -> bool {
        self.rules@.len() == kind_count()
    }

    fn new() -> (r: Scan)
        ensures
            r.wf(),
            r.state() == initial_state(),
    {
        let r = Scan {
            all: HashSet::new(),
            rules: empty_rule_sets(),
            block_all: None,
            block_rules: Vec::new(),
        };
        assert(r.block_rules@ =~= Seq::<(OffenseKind, usize)>::empty());
        r
    }

    fn apply_line(&mut self, targets: &[Target], line: usize)
        requires
            old(self).wf(),
        ensures
            final(self).wf(),
            final(self).state() == apply_to_line(old(self).state(), targets@, line),
    {
        let ghost st0 = self.state();
        apply_targets_to_line(targets, line, &mut self.all, &mut self.rules);
        assert(self.state() =~= apply_to_line(st0, targets@, line));
    }

    fn open(&mut self, targets: &[Target], start: usize)
        requires
            old(self).wf(),
        ensures
            final(self).wf(),
            final(self).state() == open_blocks(old(self).state(), targets@, start),
    {
        let ghost st0 = self.state();
        let mut i: usize = 0;
        assert(targets@.take(0) =~= Seq::<Target>::empty());
        assert(st0.block_rules + rule_starts(targets@.take(0), start) =~= st0.block_rules);
        while i < targets.len()
            invariant
                i <= targets@.len(),
                self.wf(),
                self.state() == open_blocks(st0, targets@.take(i as int), start),
            decreases targets@.len() - i,
        {
            let ghost pre = targets@.take(i as int);
            let ghost post = targets@.take(i + 1);
            assert(post.drop_last() =~= pre);
            assert(forall|x: Target| post.contains(x) <==> (pre.contains(x) || x == targets@[i as int])) by {
                assert forall|x: Target| post.contains(x) implies (pre.contains(x) || x == targets@[i as int]) by {
                    let j = choose|j: int| 0 <= j < post.len() && post[j] == x;
                    if j < i {
                        assert(pre[j] == x);
                    }
                }
                assert forall|x: Target| (pre.contains(x) || x == targets@[i as int]) implies post.contains(x) by {
                    if pre.contains(x) {
                        let j = choose|j: int| 0 <= j < pre.len() && pre[j] == x;
                        assert(post[j] == x);
                    } else {
                        assert(post[i as int] == x);
                    }
                }
            }
            match targets[i] {
                Target::All => {
                    self.block_all = Some(start);
                    assert(rule_starts(post, start) =~= rule_starts(pre, start));
                    assert(self.state() =~= open_blocks(st0, post, start));
                },
                Target::Rule(k) => {
                    self.block_rules.push((k, start));
                    assert(st0.block_rules + rule_starts(post, start) =~= st0.block_rules
                        + rule_starts(pre, start) + seq![(k, start)]);
                    assert(self.state() =~= open_blocks(st0, post, start));
                },
            }
            i = i + 1;
        }
        assert(targets@.take(i as int) =~= targets@);
    }

    fn close_all(&mut self, end: usize)
        requires
            old(self).wf(),
        ensures
            final(self).wf(),
            final(self).state() == close_one(old(self).state(), Target::All, end),
    {
        match self.block_all {
            Some(start) => {
                let ghost all0 = self.all@;
                self.block_all = None;
                let mut l = start;
                assert(all0.union(line_range(start, start)) =~= all0);
                let ghost rules0 = self.rules@;
                let ghost br0 = self.block_rules@;
                while l < end
                    invariant
                        start <= l,
                        l <= end || l == start,
                        self.all@ == all0.union(line_range(start, l)),
                        self.rules@ == rules0,
                        self.block_rules@ == br0,
                        self.block_all is None,
                    decreases end - l,
                {
                    self.all.insert(l);
                    assert(self.all@ =~= all0.union(line_range(start, (l + 1) as usize)));
                    l = l + 1;
                }
                assert(all0.union(line_range(start, l)) =~= all0.union(line_range(start, end)));
                assert(self.state() =~= close_one(old(self).state(), Target::All, end));
            },
            None => {},
        }
    }

    fn last_block_index(&self, kind: OffenseKind) -> (r: Option<usize>)
        ensures
            match r {
                Some(i) => last_block_of(self.block_rules@, kind) == Some(i as int),
                None => last_block_of(self.block_rules@, kind) is None,
            },
    {
        let mut i = self.block_rules.len();
        assert(self.block_rules@.take(i as int) =~= self.block_rules@);
        while i > 0
            invariant
                i <= self.block_rules@.len(),
                last_block_of(self.block_rules@, kind) == last_block_of(
                    self.block_rules@.take(i as int),
                    kind,
                ),
            decreases i,
        {
            let ghost pre = self.block_rules@.take(i as int);
            assert(pre.drop_last() =~= self.block_rules@.take(i - 1));
            if self.block_rules[i - 1].0 == kind {
                return Some(i - 1);
            }
            i = i - 1;
        }
        None
    }

    fn close_rule(&mut self, kind: OffenseKind, end: usize)
        requires
            old(self).wf(),
        ensures
            final(self).wf(),
            final(self).state() == close_one(old(self).state(), Target::Rule(kind), end),
    {
        proof {
            lemma_last_block_in_range(self.block_rules@, kind);
        }
        match self.last_block_index(kind) {
            Some(i) => {
                let ghost rules0 = rules_view(self.rules@);
                let (_, start) = self.block_rules.remove(i);
                let ghost all0 = self.all@;
                let ghost br1 = self.block_rules@;
                let mut l = start;
                assert(rules0.union(rule_range(kind, start, start)) =~= rules0);
                while l < end
                    invariant
                        start <= l,
                        l <= end || l == start,
                        self.all@ == all0,
                        self.block_rules@ == br1,
                        self.block_all == old(self).block_all,
                        self.rules@.len() == kind_count(),
                        rules_view(self.rules@) == rules0.union(rule_range(kind, start, l)),
                    decreases end - l,
                {
                    insert_rule_line(&mut self.rules, l, kind);
                    assert(rules_view(self.rules@) =~= rules0.union(
                        rule_range(kind, start, (l + 1) as usize),
                    ));
                    l = l + 1;
                }
                assert(rules0.union(rule_range(kind, start, l)) =~= rules0.union(
                    rule_range(kind, start, end),
                ));
                assert(self.state() =~= close_one(old(self).state(), Target::Rule(kind), end));
            },
            None => {},
        }
    }

    fn close(&mut self, targets: &[Target], end: usize)
        requires
            old(self).wf(),
        ensures
            final(self).wf(),
            final(self).state() == close_blocks(old(self).state(), targets@, end),
    {
        let ghost st0 = self.state();
        let mut i: usize = 0;
        assert(targets@.take(0) =~= Seq::<Target>::empty());
        while i < targets.len()
            invariant
                i <= targets@.len(),
                self.wf(),
                self.state() == close_blocks(st0, targets@.take(i as int), end),
            decreases targets@.len() - i,
        {
            assert(targets@.take(i + 1).drop_last() =~= targets@.take(i as int));
            match targets[i] {
                Target::All => self.close_all(end),
                Target::Rule(k) => self.close_rule(k, end),
            }
            i = i + 1;
        }
        assert(targets@.take(i as int) =~= targets@);
    }

    fn finish(self, total: usize) -> (r: DisabledSet)
        requires
            self.wf(),
            total < usize::MAX,
        ensures
            r@ == finish(self.state(), total),
    {
        let ghost st = self.state();
        let Scan { all: mut all, rules: mut rules, block_all, block_rules } = self;
        match block_all {
            Some(start) => {
                let ghost all0 = all@;
                let mut l = start;
                assert(all0.union(line_range(start, start)) =~= all0);
                while l <= total
                    invariant
                        start <= l,
                        l <= total + 1 || l == start,
                        total < usize::MAX,
                        all@ == all0.union(line_range(start, l)),
                    decreases total + 1 - l,
                {
                    all.insert(l);
                    assert(all@ =~= all0.union(line_range(start, (l + 1) as usize)));
                    l = l + 1;
                }
                assert(all0.union(line_range(start, l)) =~= all0.union(
                    line_range(start, (total + 1) as usize),
                ));
            },
            None => {},
        }
        let ghost rules0 = rules_view(rules@);
        let mut j: usize = 0;
        while j < block_rules.len()
            invariant
                j <= block_rules@.len(),
                block_rules@ == st.block_rules,
                rules@.len() == kind_count(),
                total < usize::MAX,
                rules_view(rules@) == rules0.union(
                    Set::new(
                        |p: (usize, OffenseKind)|
                            exists|i: int|
                                0 <= i < j && #[trigger] block_rules@[i].0 == p.1
                                    && block_rules@[i].1 <= p.0 && p.0 <= total,
                    ),
                ),
            decreases block_rules@.len() - j,
        {
            let (kind, start) = block_rules[j];
            let ghost before = rules_view(rules@);
            let mut l = start;
            assert(before.union(rule_range(kind, start, start)) =~= before);
            while l <= total
                invariant
                    start <= l,
                    l <= total + 1 || l == start,
                    total < usize::MAX,
                    rules@.len() == kind_count(),
                    rules_view(rules@) == before.union(rule_range(kind, start, l)),
                decreases total + 1 - l,
            {
                insert_rule_line(&mut rules, l, kind);
                assert(rules_view(rules@) =~= before.union(rule_range(kind, start, (l + 1) as usize)));
                l = l + 1;
            }
            assert(rules_view(rules@) =~= rules0.union(
                Set::new(
                    |p: (usize, OffenseKind)|
                        exists|i: int|
                            0 <= i < j + 1 && #[trigger] block_rules@[i].0 == p.1
                                && block_rules@[i].1 <= p.0 && p.0 <= total,
                ),
            )) by {
                assert forall|p: (usize, OffenseKind)| rule_range(kind, start, l).contains(p) implies (
                exists|i: int|
                    0 <= i < j + 1 && #[trigger] block_rules@[i].0 == p.1 && block_rules@[i].1
                        <= p.0 && p.0 <= total) by {
                    assert(block_rules@[j as int].0 == p.1);
                }
            }
            j = j + 1;
        }
        let r = DisabledSet { all_disabled_lines: all, rule_disabled_lines: rules };
        assert(r@.1 =~= finish(st, total).1);
        r
    }
}

proof fn lemma_last_block_in_range(s: Seq<(OffenseKind, usize)>, k: OffenseKind)
    ensures
        last_block_of(s, k) matches Some(i) ==> 0 <= i < s.len() && s[i].0 == k,
    decreases s.len(),
{
    if s.len() > 0 && s.last().0 != k {
        lemma_last_block_in_range(s.drop_last(), k);
    }
}

/// Build the disabled set from the byte spans of a file's comments (in
/// source order), the source, and its newline table.
pub fn build_disabled_set(
    comments: &[(usize, usize)],
    source: &[u8],
    newline_positions: &[usize],
) -> (r: DisabledSet)
    requires
        spans_valid(comments@, source@),
        strictly_increasing(newline_positions@),
        newline_positions@.len() + 3 < usize::MAX,
    ensures
        r@ == spec_disabled_set(comments@, source@, newline_positions@),
{
    let mut scan = Scan::new();
    let mut i: usize = 0;
    assert(comments@.take(0) =~= Seq::<(usize, usize)>::empty());
    while i < comments.len()
        invariant
            i <= comments@.len(),
            spans_valid(comments@, source@),
            strictly_increasing(newline_positions@),
            newline_positions@.len() + 3 < usize::MAX,
            scan.wf(),
            scan.state() == scan_comments(comments@.take(i as int), source@, newline_positions@),
        decreases comments@.len() - i,
    {
        assert(comments@.take(i + 1).drop_last() =~= comments@.take(i as int));
        assert(comments@.take(i + 1).last() == comments@[i as int]);
        let (begin, end) = comments[i];
        assert(begin <= end && begin <= source@.len());
        let comment_line = byte_offset_to_line(newline_positions, begin);
        let is_trailing = is_trailing_comment(source, begin);
        let end = if end < source.len() {
            end
        } else {
            source.len()
        };
        let text = vstd::slice::slice_subrange(source, begin, end);
        match str_from_utf8(text) {
            None => {},
            Some(comment_str) => match parse_directive(comment_str) {
                Some(Directive::Disable(targets)) => {
                    if is_trailing {
                        scan.apply_line(targets.as_slice(), comment_line);
                    } else {
                        scan.open(targets.as_slice(), comment_line + 1);
                    }
                },
                Some(Directive::DisableNextLine(targets)) => {
                    scan.apply_line(targets.as_slice(), comment_line + 1);
                },
                Some(Directive::Enable(targets)) => {
                    scan.close(targets.as_slice(), comment_line);
                },
                None => {},
            },
        }
        i = i + 1;
    }
    assert(comments@.take(i as int) =~= comments@);
    let total_lines = newline_positions.len() + 1;
    scan.finish(total_lines)
}

/// What `ruby_prism::parse` reports of a source: whether it found syntax
/// errors, and the byte spans `(start, end)` of its comments in source order.
pub uninterp spec fn prism_parse_report(source: Seq<u8>) -> (bool, Seq<(usize, usize)>);

/// Parses `source` with `ruby_prism::parse` and reads off whether any error
/// was reported and the start and end offsets of every comment's location.
/// The contract names this result, a function of the source alone; it
/// states nothing of its value, so in particular not that the spans lie
/// inside the source (callers check that).
#[verifier::external_body]
pub(crate) fn prism_report(source: &[u8]) -> (r: (bool, Vec<(usize, usize)>))
    ensures
        (r.0, r.1@) == prism_parse_report(source@),
{
    let result = ruby_prism::parse(source);
    let has_errors = result.errors().next().is_some();
    let mut spans = Vec::new();
    for comment in result.comments() {
        let loc = comment.location();
        spans.push((loc.start() as usize, loc.end() as usize));
    }
    (has_errors, spans)
}

/// Check that every span starts inside a source of length `len` and ends
/// no earlier than it starts.
pub fn check_spans(comments: &[(usize, usize)], len: usize) -> (r: bool)
    ensures
        r == (forall|i: int| 0 <= i < comments@.len() ==> #[trigger] comments@[i].0 <= comments@[i].1 && comments@[i].0 <= len),
{
    let mut i: usize = 0;
    while i < comments.len()
        invariant
            i <= comments@.len(),
            forall|j: int| 0 <= j < i ==> #[trigger] comments@[j].0 <= comments@[j].1 && comments@[j].0 <= len,
        decreases comments@.len() - i,
    {
        let (b, e) = comments[i];
        if !(b <= e && b <= len) {
            return false;
        }
        i = i + 1;
    }
    true
}

/// Build the disabled set of a source from the comments the parser finds
/// in it. `None` when a reported comment span starts past the source or
/// ends before it starts (the parser does not report such spans on sources it can parse),
/// or when the source has so many lines that line numbers could overflow.
pub fn disabled_set_of_source(source: &[u8]) -> (r: Option<DisabledSet>)
    ensures
        ({
            let comments = prism_parse_report(source@).1;
            let fits = newline_positions(source@).len() + 3 < usize::MAX;
            match r {
                Some(d) => spans_valid(comments, source@) && fits && d@ == spec_disabled_set(
                    comments,
                    source@,
                    newline_positions(source@),
                ),
                None => !spans_valid(comments, source@) || !fits,
            }
        }),
{
    let newline_positions = compute_newline_positions(source);
    let n = source.len();
    proof {
        assert(source@.len() == n);
        lemma_newline_positions_sorted(source@);
    }
    let (_, comments) = prism_report(source);
    if !check_spans(comments.as_slice(), source.len()) {
        return None;
    }
    if newline_positions.len() >= usize::MAX - 3 {
        return None;
    }
    Some(build_disabled_set(comments.as_slice(), source, newline_positions.as_slice()))
}

/// Nothing disabled in state `a` is enabled again in state `b`.
pub open spec fn state_le(a: ScanState, b: ScanState) -> bool {
    a.all.subset_of(b.all) && a.rules.subset_of(b.rules)
}

proof fn lemma_close_blocks_mono(st: ScanState, t: Seq<Target>, end: usize)
    ensures
        state_le(st, close_blocks(st, t, end)),
    decreases t.len(),
{
    if t.len() > 0 {
        lemma_close_blocks_mono(st, t.drop_last(), end);
    }
}

proof fn lemma_step_mono(st: ScanState, line: usize, trailing: bool, d: Option<DirectiveView>)
    ensures
        state_le(st, step(st, line, trailing, d)),
{
    match d {
        Some(DirectiveView::Enable(t)) => lemma_close_blocks_mono(st, t, line),
        _ => {},
    }
}

proof fn lemma_scan_mono(comments: Seq<(usize, usize)>, source: Seq<u8>, positions: Seq<usize>, k: int)
    requires
        0 <= k <= comments.len(),
    ensures
        state_le(
            scan_comments(comments.take(k), source, positions),
            scan_comments(comments, source, positions),
        ),
    decreases comments.len(),
{
    if k == comments.len() {
        assert(comments.take(k) =~= comments);
    } else {
        assert(comments.drop_last().take(k) =~= comments.take(k));
        lemma_scan_mono(comments.drop_last(), source, positions, k);
        let c = comments.last();
        lemma_step_mono(
            scan_comments(comments.drop_last(), source, positions),
            comment_line(positions, c),
            spec_is_trailing(source, c.0 as int),
            comment_directive(source, c),
        );
    }
}

proof fn lemma_scan_step(comments: Seq<(usize, usize)>, source: Seq<u8>, positions: Seq<usize>, i: int)
    requires
        0 <= i < comments.len(),
    ensures
        scan_comments(comments.take(i + 1), source, positions) == step(
            scan_comments(comments.take(i), source, positions),
            comment_line(positions, comments[i]),
            spec_is_trailing(source, comments[i].0 as int),
            comment_directive(source, comments[i]),
        ),
{
    assert(comments.take(i + 1).drop_last() =~= comments.take(i));
    assert(comments.take(i + 1).last() == comments[i]);
}

/// A trailing `disable` comment switches its rules off on its own line,
/// and a `disable-next-line` comment on the line after it, whatever other
/// comments the file holds.
pub proof fn lemma_line_directives_hold(
    comments: Seq<(usize, usize)>,
    source: Seq<u8>,
    positions: Seq<usize>,
    i: int,
    k: OffenseKind,
)
    requires
        0 <= i < comments.len(),
    ensures
        ({
            let c = comments[i];
            let line = comment_line(positions, c);
            let d = spec_disabled_set(comments, source, positions);
            match comment_directive(source, c) {
                Some(DirectiveView::Disable(t)) => spec_is_trailing(source, c.0 as int) ==> (
                t.contains(Target::All) ==> d.0.contains(line)) && (t.contains(Target::Rule(k))
                    ==> d.1.contains((line, k))),
                Some(DirectiveView::DisableNextLine(t)) => (t.contains(Target::All) ==> d.0.contains(
                    (line + 1) as usize,
                )) && (t.contains(Target::Rule(k)) ==> d.1.contains(((line + 1) as usize, k))),
                _ => true,
            }
        }),
{
    lemma_scan_step(comments, source, positions, i);
    lemma_scan_mono(comments, source, positions, i + 1);
    let c = comments[i];
    let line = comment_line(positions, c);
    match comment_directive(source, c) {
        Some(DirectiveView::Disable(t)) => {
            if spec_is_trailing(source, c.0 as int) {
                let after = scan_comments(comments.take(i + 1), source, positions);
                if t.contains(Target::Rule(k)) {
                    assert(after.rules.contains((line, k)));
                }
                if t.contains(Target::All) {
                    assert(after.all.contains(line));
                }
            }
        },
        Some(DirectiveView::DisableNextLine(t)) => {
            let after = scan_comments(comments.take(i + 1), source, positions);
            if t.contains(Target::Rule(k)) {
                assert(after.rules.contains(((line + 1) as usize, k)));
            }
            if t.contains(Target::All) {
                assert(after.all.contains((line + 1) as usize));
            }
        },
        _ => {},
    }
}

/// The start of the most recently opened block for rule `k`, if any.
pub open spec fn last_start(s: Seq<(OffenseKind, usize)>, k: OffenseKind) -> Option<usize>
    decreases s.len(),
{
    if s.len() == 0 {
        None
    } else if s.last().0 == k {
        Some(s.last().1)
    } else {
        last_start(s.drop_last(), k)
    }
}

/// Whether a comment is a `disable` on a line of its own naming rule `k`.
pub open spec fn opens_rule_block(source: Seq<u8>, c: (usize, usize), k: OffenseKind) -> bool {
    match comment_directive(source, c) {
        Some(DirectiveView::Disable(t)) => !spec_is_trailing(source, c.0 as int) && t.contains(
            Target::Rule(k),
        ),
        _ => false,
    }
}

/// Whether a comment is an `enable` naming rule `k`.
pub open spec fn closes_rule_block(source: Seq<u8>, c: (usize, usize), k: OffenseKind) -> bool {
    match comment_directive(source, c) {
        Some(DirectiveView::Enable(t)) => t.contains(Target::Rule(k)),
        _ => false,
    }
}

/// Whether a comment is a `disable all` on a line of its own.
pub open spec fn opens_all_block(source: Seq<u8>, c: (usize, usize)) -> bool {
    match comment_directive(source, c) {
        Some(DirectiveView::Disable(t)) => !spec_is_trailing(source, c.0 as int) && t.contains(
            Target::All,
        ),
        _ => false,
    }
}

/// Whether a comment is an `enable all`.
pub open spec fn closes_all_block(source: Seq<u8>, c: (usize, usize)) -> bool {
    match comment_directive(source, c) {
        Some(DirectiveView::Enable(t)) => t.contains(Target::All),
        _ => false,
    }
}

proof fn lemma_last_start_index(s: Seq<(OffenseKind, usize)>, k: OffenseKind)
    ensures
        match last_block_of(s, k) {
            Some(i) => 0 <= i < s.len() && s[i].0 == k && last_start(s, k) == Some(s[i].1),
            None => last_start(s, k) is None,
        },
    decreases s.len(),
{
    if s.len() > 0 && s.last().0 != k {
        lemma_last_start_index(s.drop_last(), k);
    }
}

proof fn lemma_last_start_append(a: Seq<(OffenseKind, usize)>, b: Seq<(OffenseKind, usize)>, k: OffenseKind)
    ensures
        last_start(a + b, k) == (if last_start(b, k) is Some {
            last_start(b, k)
        } else {
            last_start(a, k)
        }),
    decreases b.len(),
{
    if b.len() == 0 {
        assert(a + b =~= a);
    } else {
        assert((a + b).drop_last() =~= a + b.drop_last());
        assert((a + b).last() == b.last());
        lemma_last_start_append(a, b.drop_last(), k);
    }
}

proof fn lemma_rule_starts_last(t: Seq<Target>, start: usize, k: OffenseKind)
    ensures
        last_start(rule_starts(t, start), k) == (if t.contains(Target::Rule(k)) {
            Some(start)
        } else {
            None
        }),
    decreases t.len(),
{
    if t.len() == 0 {
        assert(!t.contains(Target::Rule(k)));
    } else {
        let pre = t.drop_last();
        lemma_rule_starts_last(pre, start, k);
        lemma_contains_last(t, Target::Rule(k));
        let tail: Seq<(OffenseKind, usize)> = match t.last() {
            Target::Rule(k2) => seq![(k2, start)],
            Target::All => seq![],
        };
        assert(rule_starts(t, start) == rule_starts(pre, start) + tail);
        lemma_last_start_append(rule_starts(pre, start), tail, k);
        match t.last() {
            Target::Rule(k2) => {
                if k2 == k {
                    assert(last_start(tail, k) == Some(start));
                } else {
                    assert(tail.drop_last() =~= Seq::<(OffenseKind, usize)>::empty());
                    assert(last_start(tail, k) == last_start(tail.drop_last(), k));
                    assert(last_start(tail, k) is None);
                }
            },
            Target::All => {
                assert(last_start(tail, k) is None);
            },
        }
    }
}

proof fn lemma_last_start_remove(s: Seq<(OffenseKind, usize)>, i: int, k: OffenseKind)
    requires
        0 <= i < s.len(),
        s[i].0 != k,
    ensures
        last_start(s.remove(i), k) == last_start(s, k),
    decreases s.len(),
{
    if i == s.len() - 1 {
        assert(s.remove(i) =~= s.drop_last());
    } else {
        assert(s.remove(i).drop_last() =~= s.drop_last().remove(i));
        assert(s.remove(i).last() == s.last());
        lemma_last_start_remove(s.drop_last(), i, k);
    }
}

/// Whether `t` names `x`: a helper fact about the last element of a list.
proof fn lemma_contains_last<A>(t: Seq<A>, x: A)
    requires
        t.len() > 0,
    ensures
        t.contains(x) <==> (t.drop_last().contains(x) || x == t.last()),
{
    let pre = t.drop_last();
    if t.contains(x) {
        let j = choose|j: int| 0 <= j < t.len() && t[j] == x;
        if j < t.len() - 1 {
            assert(pre[j] == x);
        }
    }
    if pre.contains(x) {
        let j = choose|j: int| 0 <= j < pre.len() && pre[j] == x;
        assert(t[j] == x);
    }
    if x == t.last() {
        assert(t[t.len() - 1] == x);
    }
}

proof fn lemma_close_blocks_keeps_rule(st: ScanState, t: Seq<Target>, end: usize, k: OffenseKind)
    requires
        !t.contains(Target::Rule(k)),
    ensures
        last_start(close_blocks(st, t, end).block_rules, k) == last_start(st.block_rules, k),
    decreases t.len(),
{
    if t.len() > 0 {
        lemma_contains_last(t, Target::Rule(k));
        lemma_close_blocks_keeps_rule(st, t.drop_last(), end, k);
        let mid = close_blocks(st, t.drop_last(), end);
        if let Target::Rule(k2) = t.last() {
            lemma_last_start_index(mid.block_rules, k2);
            if let Some(i) = last_block_of(mid.block_rules, k2) {
                lemma_last_start_remove(mid.block_rules, i, k);
            }
        }
    }
}

proof fn lemma_close_blocks_closes_rule(st: ScanState, t: Seq<Target>, end: usize, k: OffenseKind, v: usize)
    requires
        t.contains(Target::Rule(k)),
        last_start(st.block_rules, k) == Some(v),
    ensures
        rule_range(k, v, end).subset_of(close_blocks(st, t, end).rules),
    decreases t.len(),
{
    lemma_contains_last(t, Target::Rule(k));
    let pre = t.drop_last();
    let mid = close_blocks(st, pre, end);
    if pre.contains(Target::Rule(k)) {
        lemma_close_blocks_closes_rule(st, pre, end, k, v);
    } else {
        lemma_close_blocks_keeps_rule(st, pre, end, k);
        lemma_last_start_index(mid.block_rules, k);
    }
}

proof fn lemma_close_blocks_keeps_all(st: ScanState, t: Seq<Target>, end: usize)
    requires
        !t.contains(Target::All),
    ensures
        close_blocks(st, t, end).block_all == st.block_all,
    decreases t.len(),
{
    if t.len() > 0 {
        lemma_contains_last(t, Target::All);
        lemma_close_blocks_keeps_all(st, t.drop_last(), end);
    }
}

proof fn lemma_close_blocks_closes_all(st: ScanState, t: Seq<Target>, end: usize, v: usize)
    requires
        t.contains(Target::All),
        st.block_all == Some(v),
    ensures
        line_range(v, end).subset_of(close_blocks(st, t, end).all),
    decreases t.len(),
{
    lemma_contains_last(t, Target::All);
    let pre = t.drop_last();
    let mid = close_blocks(st, pre, end);
    if pre.contains(Target::All) {
        lemma_close_blocks_closes_all(st, pre, end, v);
    } else {
        lemma_close_blocks_keeps_all(st, pre, end);
    }
}

/// A comment that neither opens nor closes a block for rule `k` keeps the
/// start of the latest open block for `k`.
proof fn lemma_step_keeps_rule(
    st: ScanState,
    source: Seq<u8>,
    positions: Seq<usize>,
    c: (usize, usize),
    k: OffenseKind,
)
    requires
        !opens_rule_block(source, c, k),
        !closes_rule_block(source, c, k),
    ensures
        last_start(
            step(st, comment_line(positions, c), spec_is_trailing(source, c.0 as int), comment_directive(source, c)).block_rules,
            k,
        ) == last_start(st.block_rules, k),
{
    let line = comment_line(positions, c);
    match comment_directive(source, c) {
        Some(DirectiveView::Disable(t)) => {
            if !spec_is_trailing(source, c.0 as int) {
                lemma_last_start_append(st.block_rules, rule_starts(t, (line + 1) as usize), k);
                lemma_rule_starts_last(t, (line + 1) as usize, k);
            }
        },
        Some(DirectiveView::Enable(t)) => {
            lemma_close_blocks_keeps_rule(st, t, line, k);
        },
        _ => {},
    }
}

/// A comment that neither opens nor closes an `all` block keeps the open one.
proof fn lemma_step_keeps_all(
    st: ScanState,
    source: Seq<u8>,
    positions: Seq<usize>,
    c: (usize, usize),
)
    requires
        !opens_all_block(source, c),
        !closes_all_block(source, c),
    ensures
        step(st, comment_line(positions, c), spec_is_trailing(source, c.0 as int), comment_directive(source, c)).block_all
            == st.block_all,
{
    match comment_directive(source, c) {
        Some(DirectiveView::Enable(t)) => {
            lemma_close_blocks_keeps_all(st, t, comment_line(positions, c));
        },
        _ => {},
    }
}

proof fn lemma_rule_block_persists(
    comments: Seq<(usize, usize)>,
    source: Seq<u8>,
    positions: Seq<usize>,
    i: int,
    m: int,
    k: OffenseKind,
)
    requires
        0 <= i < m <= comments.len(),
        forall|q: int|
            i < q < m ==> !opens_rule_block(source, #[trigger] comments[q], k) && !closes_rule_block(
                source,
                comments[q],
                k,
            ),
    ensures
        last_start(scan_comments(comments.take(m), source, positions).block_rules, k) == last_start(
            scan_comments(comments.take(i + 1), source, positions).block_rules,
            k,
        ),
    decreases m - i,
{
    if m > i + 1 {
        lemma_rule_block_persists(comments, source, positions, i, m - 1, k);
        lemma_scan_step(comments, source, positions, m - 1);
        lemma_step_keeps_rule(
            scan_comments(comments.take(m - 1), source, positions),
            source,
            positions,
            comments[m - 1],
            k,
        );
    }
}

proof fn lemma_all_block_persists(
    comments: Seq<(usize, usize)>,
    source: Seq<u8>,
    positions: Seq<usize>,
    i: int,
    m: int,
)
    requires
        0 <= i < m <= comments.len(),
        forall|q: int|
            i < q < m ==> !opens_all_block(source, #[trigger] comments[q]) && !closes_all_block(
                source,
                comments[q],
            ),
    ensures
        scan_comments(comments.take(m), source, positions).block_all == scan_comments(
            comments.take(i + 1),
            source,
            positions,
        ).block_all,
    decreases m - i,
{
    if m > i + 1 {
        lemma_all_block_persists(comments, source, positions, i, m - 1);
        lemma_scan_step(comments, source, positions, m - 1);
        lemma_step_keeps_all(
            scan_comments(comments.take(m - 1), source, positions),
            source,
            positions,
            comments[m - 1],
        );
    }
}

/// A `disable` comment on a line of its own opens a block for its rules
/// starting on the next line.
proof fn lemma_open_rule_block(
    comments: Seq<(usize, usize)>,
    source: Seq<u8>,
    positions: Seq<usize>,
    i: int,
    k: OffenseKind,
)
    requires
        0 <= i < comments.len(),
        opens_rule_block(source, comments[i], k),
    ensures
        last_start(scan_comments(comments.take(i + 1), source, positions).block_rules, k) == Some(
            (comment_line(positions, comments[i]) + 1) as usize,
        ),
{
    lemma_scan_step(comments, source, positions, i);
    let c = comments[i];
    let start = (comment_line(positions, c) + 1) as usize;
    if let Some(DirectiveView::Disable(t)) = comment_directive(source, c) {
        let before = scan_comments(comments.take(i), source, positions);
        lemma_last_start_append(before.block_rules, rule_starts(t, start), k);
        lemma_rule_starts_last(t, start, k);
    }
}

/// A `disable` comment naming a rule on a line of its own, closed by a
/// later `enable` comment naming the rule (with no comment between them
/// opening or closing a block for it), disables the rule on every line
/// after the `disable` comment's line and before the `enable` comment's.
pub proof fn lemma_rule_block_holds(
    comments: Seq<(usize, usize)>,
    source: Seq<u8>,
    positions: Seq<usize>,
    i: int,
    j: int,
    k: OffenseKind,
    line: usize,
)
    requires
        0 <= i < j < comments.len(),
        opens_rule_block(source, comments[i], k),
        closes_rule_block(source, comments[j], k),
        forall|q: int|
            i < q < j ==> !opens_rule_block(source, #[trigger] comments[q], k) && !closes_rule_block(
                source,
                comments[q],
                k,
            ),
        comment_line(positions, comments[i]) < line < comment_line(positions, comments[j]),
    ensures
        spec_disabled_set(comments, source, positions).1.contains((line, k)),
{
    lemma_open_rule_block(comments, source, positions, i, k);
    lemma_rule_block_persists(comments, source, positions, i, j, k);
    lemma_scan_step(comments, source, positions, j);
    let before = scan_comments(comments.take(j), source, positions);
    let c = comments[j];
    if let Some(DirectiveView::Enable(t)) = comment_directive(source, c) {
        lemma_close_blocks_closes_rule(
            before,
            t,
            comment_line(positions, c),
            k,
            (comment_line(positions, comments[i]) + 1) as usize,
        );
    }
    assert(rule_range(
        k,
        (comment_line(positions, comments[i]) + 1) as usize,
        comment_line(positions, c),
    ).contains((line, k)));
    lemma_scan_mono(comments, source, positions, j + 1);
}

/// A `disable all` comment on a line of its own, closed by a later `enable
/// all` comment (with no comment between them opening or closing an `all`
/// block), disables every rule on every line between the two comments.
pub proof fn lemma_all_block_holds(
    comments: Seq<(usize, usize)>,
    source: Seq<u8>,
    positions: Seq<usize>,
    i: int,
    j: int,
    line: usize,
)
    requires
        0 <= i < j < comments.len(),
        opens_all_block(source, comments[i]),
        closes_all_block(source, comments[j]),
        forall|q: int|
            i < q < j ==> !opens_all_block(source, #[trigger] comments[q]) && !closes_all_block(
                source,
                comments[q],
            ),
        comment_line(positions, comments[i]) < line < comment_line(positions, comments[j]),
    ensures
        spec_disabled_set(comments, source, positions).0.contains(line),
{
    lemma_scan_step(comments, source, positions, i);
    lemma_all_block_persists(comments, source, positions, i, j);
    lemma_scan_step(comments, source, positions, j);
    let before = scan_comments(comments.take(j), source, positions);
    let c = comments[j];
    if let Some(DirectiveView::Enable(t)) = comment_directive(source, c) {
        lemma_close_blocks_closes_all(
            before,
            t,
            comment_line(positions, c),
            (comment_line(positions, comments[i]) + 1) as usize,
        );
    }
    assert(line_range(
        (comment_line(positions, comments[i]) + 1) as usize,
        comment_line(positions, c),
    ).contains(line));
    lemma_scan_mono(comments, source, positions, j + 1);
}

/// A `disable all` comment on a line of its own that no later comment
/// closes or reopens disables every rule from the next line to the end of
/// the file.
pub proof fn lemma_all_block_to_end(
    comments: Seq<(usize, usize)>,
    source: Seq<u8>,
    positions: Seq<usize>,
    i: int,
    line: usize,
)
    requires
        0 <= i < comments.len(),
        opens_all_block(source, comments[i]),
        forall|q: int|
            i < q < comments.len() ==> !opens_all_block(source, #[trigger] comments[q])
                && !closes_all_block(source, comments[q]),
        comment_line(positions, comments[i]) < line <= positions.len() + 1,
        positions.len() + 3 < usize::MAX,
    ensures
        spec_disabled_set(comments, source, positions).0.contains(line),
{
    lemma_scan_step(comments, source, positions, i);
    lemma_all_block_persists(comments, source, positions, i, comments.len() as int);
    assert(comments.take(comments.len() as int) =~= comments);
}

proof fn lemma_remove_keeps(s: Seq<(OffenseKind, usize)>, i: int, e: (OffenseKind, usize))
    requires
        0 <= i < s.len(),
        s.contains(e),
        s[i].0 != e.0,
    ensures
        s.remove(i).contains(e),
{
    let j = choose|j: int| 0 <= j < s.len() && s[j] == e;
    if j < i {
        assert(s.remove(i)[j] == e);
    } else {
        assert(s.remove(i)[j - 1] == e);
    }
}

proof fn lemma_close_blocks_keeps_entry(st: ScanState, t: Seq<Target>, end: usize, e: (OffenseKind, usize))
    requires
        !t.contains(Target::Rule(e.0)),
        st.block_rules.contains(e),
    ensures
        close_blocks(st, t, end).block_rules.contains(e),
    decreases t.len(),
{
    if t.len() > 0 {
        lemma_contains_last(t, Target::Rule(e.0));
        lemma_close_blocks_keeps_entry(st, t.drop_last(), end, e);
        let mid = close_blocks(st, t.drop_last(), end);
        if let Target::Rule(k2) = t.last() {
            lemma_last_start_index(mid.block_rules, k2);
            if let Some(i) = last_block_of(mid.block_rules, k2) {
                lemma_remove_keeps(mid.block_rules, i, e);
            }
        }
    }
}

proof fn lemma_step_keeps_entry(
    st: ScanState,
    source: Seq<u8>,
    positions: Seq<usize>,
    c: (usize, usize),
    e: (OffenseKind, usize),
)
    requires
        !closes_rule_block(source, c, e.0),
        st.block_rules.contains(e),
    ensures
        step(st, comment_line(positions, c), spec_is_trailing(source, c.0 as int), comment_directive(source, c)).block_rules.contains(e),
{
    let line = comment_line(positions, c);
    match comment_directive(source, c) {
        Some(DirectiveView::Disable(t)) => {
            if !spec_is_trailing(source, c.0 as int) {
                let j = choose|j: int| 0 <= j < st.block_rules.len() && st.block_rules[j] == e;
                assert((st.block_rules + rule_starts(t, (line + 1) as usize))[j] == e);
            }
        },
        Some(DirectiveView::Enable(t)) => {
            lemma_close_blocks_keeps_entry(st, t, line, e);
        },
        _ => {},
    }
}

proof fn lemma_entry_persists(
    comments: Seq<(usize, usize)>,
    source: Seq<u8>,
    positions: Seq<usize>,
    i: int,
    m: int,
    e: (OffenseKind, usize),
)
    requires
        0 <= i < m <= comments.len(),
        scan_comments(comments.take(i + 1), source, positions).block_rules.contains(e),
        forall|q: int| i < q < m ==> !closes_rule_block(source, #[trigger] comments[q], e.0),
    ensures
        scan_comments(comments.take(m), source, positions).block_rules.contains(e),
    decreases m - i,
{
    if m > i + 1 {
        lemma_entry_persists(comments, source, positions, i, m - 1, e);
        lemma_scan_step(comments, source, positions, m - 1);
        lemma_step_keeps_entry(
            scan_comments(comments.take(m - 1), source, positions),
            source,
            positions,
            comments[m - 1],
            e,
        );
    }
}

/// A `disable` comment naming a rule on a line of its own that no later
/// comment closes (with an `enable` naming the rule) disables the rule from
/// the next line to the end of the file.
pub proof fn lemma_rule_block_to_end(
    comments: Seq<(usize, usize)>,
    source: Seq<u8>,
    positions: Seq<usize>,
    i: int,
    k: OffenseKind,
    line: usize,
)
    requires
        0 <= i < comments.len(),
        opens_rule_block(source, comments[i], k),
        forall|q: int| i < q < comments.len() ==> !closes_rule_block(source, #[trigger] comments[q], k),
        comment_line(positions, comments[i]) < line <= positions.len() + 1,
        positions.len() + 3 < usize::MAX,
    ensures
        spec_disabled_set(comments, source, positions).1.contains((line, k)),
{
    let start = (comment_line(positions, comments[i]) + 1) as usize;
    lemma_open_rule_block(comments, source, positions, i, k);
    let after = scan_comments(comments.take(i + 1), source, positions);
    lemma_last_start_index(after.block_rules, k);
    let idx = last_block_of(after.block_rules, k)->0;
    assert(after.block_rules[idx] == (k, start));
    assert(after.block_rules.contains((k, start)));
    lemma_entry_persists(comments, source, positions, i, comments.len() as int, (k, start));
    assert(comments.take(comments.len() as int) =~= comments);
    let fin = scan_comments(comments, source, positions);
    let j = choose|j: int| 0 <= j < fin.block_rules.len() && fin.block_rules[j] == (k, start);
    assert(fin.block_rules[j].0 == k && fin.block_rules[j].1 <= line && line <= (positions.len()
        + 1) as usize);
}

/// Whether a directive names rule `k` among its targets.
pub open spec fn names_rule(d: Option<DirectiveView>, k: OffenseKind) -> bool {
    match d {
        Some(DirectiveView::Disable(t)) => t.contains(Target::Rule(k)),
        Some(DirectiveView::DisableNextLine(t)) => t.contains(Target::Rule(k)),
        Some(DirectiveView::Enable(t)) => t.contains(Target::Rule(k)),
        None => false,
    }
}

/// Whether a scan state holds nothing that concerns rule `k` alone.
spec fn free_of_rule(st: ScanState, k: OffenseKind) -> bool {
    &&& forall|p: (usize, OffenseKind)| #[trigger] st.rules.contains(p) ==> p.1 != k
    &&& forall|i: int| 0 <= i < st.block_rules.len() ==> (#[trigger] st.block_rules[i]).0 != k
}

proof fn lemma_rule_starts_named(t: Seq<Target>, start: usize)
    ensures
        forall|i: int|
            0 <= i < rule_starts(t, start).len() ==> t.contains(
                Target::Rule(#[trigger] rule_starts(t, start)[i].0),
            ),
    decreases t.len(),
{
    if t.len() > 0 {
        lemma_rule_starts_named(t.drop_last(), start);
        let pre = rule_starts(t.drop_last(), start);
        let r = rule_starts(t, start);
        assert forall|i: int| 0 <= i < r.len() implies t.contains(Target::Rule(#[trigger] r[i].0)) by {
            if i < pre.len() {
                assert(r[i] == pre[i]);
                let j = choose|j: int| 0 <= j < t.drop_last().len() && t.drop_last()[j] == Target::Rule(
                    pre[i].0,
                );
                assert(t[j] == t.drop_last()[j]);
            } else {
                assert(t[t.len() - 1] == t.last());
            }
        }
    }
}

proof fn lemma_close_blocks_free(st: ScanState, t: Seq<Target>, end: usize, k: OffenseKind)
    requires
        free_of_rule(st, k),
        !t.contains(Target::Rule(k)),
    ensures
        free_of_rule(close_blocks(st, t, end), k),
    decreases t.len(),
{
    if t.len() > 0 {
        assert(!t.drop_last().contains(Target::Rule(k))) by {
            if t.drop_last().contains(Target::Rule(k)) {
                let j = choose|j: int| 0 <= j < t.drop_last().len() && t.drop_last()[j] == Target::Rule(k);
                assert(t[j] == Target::Rule(k));
            }
        }
        lemma_close_blocks_free(st, t.drop_last(), end, k);
        let mid = close_blocks(st, t.drop_last(), end);
        assert(t[t.len() - 1] == t.last());
        match t.last() {
            Target::All => {},
            Target::Rule(k2) => {
                lemma_last_start_index(mid.block_rules, k2);
                match last_block_of(mid.block_rules, k2) {
                    Some(i) => {
                        let after = close_one(mid, t.last(), end);
                        assert forall|q: int| 0 <= q < after.block_rules.len() implies (
                        #[trigger] after.block_rules[q]).0 != k by {
                            if q < i {
                                assert(after.block_rules[q] == mid.block_rules[q]);
                            } else {
                                assert(after.block_rules[q] == mid.block_rules[q + 1]);
                            }
                        }
                    },
                    None => {},
                }
            },
        }
    }
}

proof fn lemma_scan_free(
    comments: Seq<(usize, usize)>,
    source: Seq<u8>,
    positions: Seq<usize>,
    k: OffenseKind,
)
    requires
        forall|i: int| 0 <= i < comments.len() ==> !names_rule(comment_directive(source, #[trigger] comments[i]), k),
    ensures
        free_of_rule(scan_comments(comments, source, positions), k),
    decreases comments.len(),
{
    if comments.len() > 0 {
        let pre = comments.drop_last();
        assert forall|i: int| 0 <= i < pre.len() implies !names_rule(comment_directive(source, #[trigger] pre[i]), k) by {
            assert(pre[i] == comments[i]);
        }
        lemma_scan_free(pre, source, positions, k);
        let st = scan_comments(pre, source, positions);
        let c = comments.last();
        assert(comments[comments.len() - 1] == c);
        let line = comment_line(positions, c);
        match comment_directive(source, c) {
            Some(DirectiveView::Disable(t)) => {
                if !spec_is_trailing(source, c.0 as int) {
                    lemma_rule_starts_named(t, (line + 1) as usize);
                    let after = open_blocks(st, t, (line + 1) as usize);
                    let rs = rule_starts(t, (line + 1) as usize);
                    assert forall|q: int| 0 <= q < after.block_rules.len() implies (
                    #[trigger] after.block_rules[q]).0 != k by {
                        if q < st.block_rules.len() {
                            assert(after.block_rules[q] == st.block_rules[q]);
                        } else {
                            assert(after.block_rules[q] == rs[q - st.block_rules.len()]);
                        }
                    }
                }
            },
            Some(DirectiveView::DisableNextLine(_)) => {},
            Some(DirectiveView::Enable(t)) => {
                lemma_close_blocks_free(st, t, line, k);
            },
            None => {},
        }
    }
}

/// Only a comment that names a rule can disable that rule on its own: when
/// no comment of a file names rule `k`, no line has `k` disabled by name
/// (a line can still have every rule disabled by `all`).
pub proof fn lemma_unnamed_rule_stays_enabled(
    comments: Seq<(usize, usize)>,
    source: Seq<u8>,
    positions: Seq<usize>,
    k: OffenseKind,
    line: usize,
)
    requires
        forall|i: int| 0 <= i < comments.len() ==> !names_rule(comment_directive(source, #[trigger] comments[i]), k),
    ensures
        !spec_disabled_set(comments, source, positions).1.contains((line, k)),
{
    lemma_scan_free(comments, source, positions, k);
}

} // verus!
