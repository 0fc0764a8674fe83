//! Analysis of one file: walk the syntax tree, dispatch each node to the
//! scanners, then resolve byte offsets to lines and drop the offenses that
//! the configuration or inline directives switch off.

use vstd::prelude::*;

use crate::ast::{children, BlockNode, CallNode, SyntaxNode, RescueNode};
use crate::ast_helpers::{
    as_call, byte_offset_to_line, compute_newline_positions, count_below,
    lemma_newline_positions_sorted, newline_positions, spec_has_full_block, strictly_increasing,
};
use crate::comment_directives::{
    build_disabled_set, check_spans, prism_parse_report, prism_report, spans_valid,
    spec_disabled_set, DisabledSet,
};
use crate::config::{Config, ConfigView};
use crate::prism_tree::{parse_tree, prism_tree};
use crate::ast_visitor::{
    all_smaller, for_each_direct_child, lemma_children_decrease, lemma_vec_elems_smaller,
};
use crate::offense::{
    append_offenses, fixes_only_on_fixable_kinds, lemma_fixable_concat, offense_views,
    fixable_kind, push_offense, Offense, OffenseKind, OffenseView,
};
use crate::scanner::for_loop_scanner::{spec_build_fix, spec_scan_for};
use crate::scanner::method_call_scanner::{
    lemma_scan_call_fixable, lemma_scan_call_on_block_call_fixable,
    lemma_scan_call_with_block_fixable, spec_scan_call, spec_scan_call_on_block_call, spec_scan_call_with_block,
};
use crate::scanner::method_definition_scanner::{lemma_scan_def_fixable, spec_scan_def};
use crate::scanner::rescue_scanner::spec_scan_rescue;
use crate::scanner::{for_loop_scanner, method_call_scanner, method_definition_scanner, rescue_scanner};

verus! {

/// The chain offenses of a call whose receiver is a call with a literal block.
pub open spec fn block_chain_offenses(c: CallNode) -> Seq<OffenseView> {
    match as_call(c.receiver) {
        Some(rc) => if spec_has_full_block(rc) {
            spec_scan_call_on_block_call(c, rc)
        } else {
            seq![]
        },
        None => seq![],
    }
}

/// The offenses found in a node and below it, in visiting order, each
/// located by the byte offset where it starts.
///
/// `for` loops, method definitions, rescue clauses and calls are handed to
/// their scanners. A method definition's parameters are not visited; a
/// call with a literal block is scanned together with the block, whose
/// parameters are not visited either. Every other node is only traversed.
pub open spec fn walk(n: SyntaxNode, source: Seq<u8>) -> Seq<OffenseView>
    decreases n, 1int, 0int,
{
    match n {
        SyntaxNode::For(f) => spec_scan_for(f, source) + walk_kids(n, children(n).len() as int, source),
        SyntaxNode::Begin(b) => {
            proof {
                assert(decreases_to!(n => b));
                assert(decreases_to!(b => b.statements));
                assert(decreases_to!(b.statements => b.statements@));
                assert(decreases_to!(b => b.else_statements));
                assert(decreases_to!(b.else_statements => b.else_statements@));
                assert(decreases_to!(b => b.ensure_statements));
                assert(decreases_to!(b.ensure_statements => b.ensure_statements@));
            }
            walk_seq(b.statements@, source) + match b.rescue_clause {
                Some(r) => walk_rescue(r, source),
                None => seq![],
            } + walk_seq(b.else_statements@, source) + walk_seq(b.ensure_statements@, source)
        },
        SyntaxNode::Rescue(r) => walk_rescue(r, source),
        SyntaxNode::Def(d) => spec_scan_def(d) + match d.body {
            Some(x) => walk(*x, source),
            None => seq![],
        },
        SyntaxNode::Call(c) => {
            proof {
                assert(decreases_to!(n => c));
                assert(decreases_to!(c => c.arguments));
                assert(decreases_to!(c.arguments => c.arguments@));
            }
            let recv = match c.receiver {
                Some(x) => walk(*x, source),
                None => seq![],
            };
            let args = walk_seq(c.arguments@, source);
            block_chain_offenses(c) + match c.block {
                Some(bb) => match *bb {
                    SyntaxNode::Block(blk) => spec_scan_call_with_block(c, blk) + recv + args
                        + match blk.body {
                        Some(x) => walk(*x, source),
                        None => seq![],
                    },
                    _ => spec_scan_call(c) + recv + args + walk(*bb, source),
                },
                None => spec_scan_call(c) + recv + args,
            }
        },
        _ => walk_kids(n, children(n).len() as int, source),
    }
}

/// The offenses of the first `k` direct children of `n`, in order.
pub open spec fn walk_kids(n: SyntaxNode, k: int, source: Seq<u8>) -> Seq<OffenseView>
    decreases n, 0int, k,
{
    if 0 < k <= children(n).len() {
        proof {
            lemma_children_decrease(n);
        }
        walk_kids(n, k - 1, source) + walk(children(n)[k - 1], source)
    } else {
        seq![]
    }
}

/// The offenses of a list of nodes, in order.
pub open spec fn walk_seq(s: Seq<SyntaxNode>, source: Seq<u8>) -> Seq<OffenseView>
    decreases s, 0int, 0int,
{
    if s.len() == 0 {
        seq![]
    } else {
        proof {
            assert(decreases_to!(s => s.drop_last()));
        }
        walk_seq(s.drop_last(), source) + walk(s.last(), source)
    }
}

/// The offenses of a rescue clause and the clauses after it: the clause's
/// own offense, then those in its exceptions, reference and statements.
pub open spec fn walk_rescue(r: RescueNode, source: Seq<u8>) -> Seq<OffenseView>
    decreases r, 1int, 0int,
{
    proof {
        assert(decreases_to!(r => r.exceptions));
        assert(decreases_to!(r.exceptions => r.exceptions@));
        assert(decreases_to!(r => r.statements));
        assert(decreases_to!(r.statements => r.statements@));
    }
    spec_scan_rescue(r) + walk_seq(r.exceptions@, source) + match r.reference {
        Some(x) => walk(*x, source),
        None => seq![],
    } + walk_seq(r.statements@, source) + match r.subsequent {
        Some(s) => walk_rescue(*s, source),
        None => seq![],
    }
}

/// The offenses of an optional node.
pub open spec fn opt_walk(o: Option<Box<SyntaxNode>>, source: Seq<u8>) -> Seq<OffenseView> {
    match o {
        Some(x) => walk(*x, source),
        None => seq![],
    }
}

/// Walk every node of a vector, appending their offenses in order.
fn walk_nodes(v: &Vec<SyntaxNode>, offenses: &mut Vec<Offense>, source: &[u8])
    ensures
        offense_views(final(offenses)@) == offense_views(old(offenses)@) + walk_seq(v@, source@),
    decreases *v, 0int,
{
    proof {
        lemma_vec_elems_smaller(*v);
    }
    let ghost base = offense_views(offenses@);
    let mut i: usize = 0;
    assert(v@.take(0) =~= Seq::<SyntaxNode>::empty());
    assert(offense_views(offenses@) =~= base + walk_seq(v@.take(0), source@));
    while i < v.len()
        invariant
            i <= v@.len(),
            forall|j: int| 0 <= j < v@.len() ==> decreases_to!(*v => #[trigger] v@[j]),
            offense_views(offenses@) == base + walk_seq(v@.take(i as int), source@),
        decreases v@.len() - i,
    {
        walk_node(&v[i], offenses, source);
        assert(v@.take(i + 1).drop_last() =~= v@.take(i as int));
        assert(offense_views(offenses@) =~= base + walk_seq(v@.take(i + 1), source@));
        i = i + 1;
    }
    assert(v@.take(i as int) =~= v@);
}

fn walk_opt(o: &Option<Box<SyntaxNode>>, offenses: &mut Vec<Offense>, source: &[u8])
    ensures
        offense_views(final(offenses)@) == offense_views(old(offenses)@) + opt_walk(*o, source@),
    decreases *o, 0int,
{
    match o {
        Some(x) => walk_node(&**x, offenses, source),
        None => {
            assert(offense_views(offenses@) =~= offense_views(old(offenses)@) + seq![]);
        },
    }
}

/// Recursively walk the tree below `node`, dispatching to the scanners and
/// appending the offenses found (with byte offsets) in visiting order.
///
/// A `for` loop whose header lies past the end of `source` (which no tree
/// parsed from that source has) is reported without a fix.
fn walk_node(node: &SyntaxNode, offenses: &mut Vec<Offense>, source: &[u8])
    ensures
        offense_views(final(offenses)@) == offense_views(old(offenses)@) + walk(*node, source@),
    decreases *node, 1int,
{
    let ghost base = offense_views(offenses@);
    match node {
        SyntaxNode::For(f) => {
            let found = if f.do_keyword_loc.is_some() || f.in_keyword_loc.end <= source.len() {
                for_loop_scanner::scan(f, source)
            } else {
                let mut v: Vec<Offense> = Vec::new();
                push_offense(&mut v, Offense::new(OffenseKind::ForLoopVsEach, f.for_keyword_loc.start));
                assert(spec_build_fix(*f, source@) is None);
                proof {
                    reveal(spec_scan_for);
                }
                assert(offense_views(v@) =~= spec_scan_for(*f, source@));
                v
            };
            append_offenses(offenses, found);
            walk_children(node, offenses, source);
            assert(offense_views(offenses@) =~= base + walk(*node, source@));
        },
        SyntaxNode::Begin(b) => {
            walk_nodes(&b.statements, offenses, source);
            match &b.rescue_clause {
                Some(r) => walk_rescue_node(r, offenses, source),
                None => {},
            }
            walk_nodes(&b.else_statements, offenses, source);
            walk_nodes(&b.ensure_statements, offenses, source);
            assert(offense_views(offenses@) =~= base + walk(*node, source@));
        },
        SyntaxNode::Rescue(r) => {
            walk_rescue_node(r, offenses, source);
        },
        SyntaxNode::Def(d) => {
            append_offenses(offenses, method_definition_scanner::scan(d));
            walk_opt(&d.body, offenses, source);
            assert(walk(*node, source@) == spec_scan_def(*d) + opt_walk(d.body, source@));
            assert(offense_views(offenses@) =~= base + walk(*node, source@));
        },
        SyntaxNode::Call(_) => {
            walk_call(node, offenses, source);
        },
        _ => {
            walk_children(node, offenses, source);
            assert(offense_views(offenses@) =~= base + walk(*node, source@));
        },
    }
}

/// Walk the direct children of a node.
fn walk_children(node: &SyntaxNode, offenses: &mut Vec<Offense>, source: &[u8])
    ensures
        offense_views(final(offenses)@) == offense_views(old(offenses)@) + walk_kids(
            *node,
            children(*node).len() as int,
            source@,
        ),
    decreases *node, 0int,
{
    let kids = for_each_direct_child(node);
    proof {
        lemma_children_decrease(*node);
    }
    let ghost base = offense_views(offenses@);
    let mut i: usize = 0;
    assert(offense_views(offenses@) =~= base + walk_kids(*node, 0, source@));
    while i < kids.len()
        invariant
            i <= kids@.len(),
            crate::ast::deref_all(kids@) == children(*node),
            all_smaller(*node, children(*node)),
            offense_views(offenses@) == base + walk_kids(*node, i as int, source@),
        decreases kids@.len() - i,
    {
        assert(*kids@[i as int] == children(*node)[i as int]);
        walk_node(kids[i], offenses, source);
        assert(offense_views(offenses@) =~= base + walk_kids(*node, i + 1, source@));
        i = i + 1;
    }
}

fn chain_offenses(call: &CallNode) -> (r: Vec<Offense>)
    ensures
        offense_views(r@) == block_chain_offenses(*call),
{
    match &call.receiver {
        Some(recv) => match &**recv {
            SyntaxNode::Call(recv_call) => match &recv_call.block {
                Some(b) => match &**b {
                    SyntaxNode::Block(_) => {
                        return method_call_scanner::scan_call_on_block_call(call, recv_call);
                    },
                    _ => {},
                },
                None => {},
            },
            _ => {},
        },
        None => {},
    }
    let r: Vec<Offense> = Vec::new();
    assert(offense_views(r@) =~= block_chain_offenses(*call));
    r
}

fn walk_call(node: &SyntaxNode, offenses: &mut Vec<Offense>, source: &[u8])
    requires
        *node is Call,
    ensures
        offense_views(final(offenses)@) == offense_views(old(offenses)@) + walk(*node, source@),
    decreases *node, 0int,
{
    let ghost base = offense_views(offenses@);
    let call = match node {
        SyntaxNode::Call(c) => c,
        _ => {
            return ;
        },
    };
    append_offenses(offenses, chain_offenses(call));
    let ghost mid = offense_views(offenses@);
    match &call.block {
        Some(bb) => match &**bb {
            SyntaxNode::Block(blk) => {
                append_offenses(offenses, method_call_scanner::scan_call_with_block(call, blk));
                walk_opt(&call.receiver, offenses, source);
                walk_nodes(&call.arguments, offenses, source);
                walk_opt(&blk.body, offenses, source);
                assert(offense_views(offenses@) =~= mid + spec_scan_call_with_block(*call, *blk)
                    + opt_walk(call.receiver, source@) + walk_seq(call.arguments@, source@)
                    + opt_walk(blk.body, source@));
            },
            _ => {
                append_offenses(offenses, method_call_scanner::scan_call(call));
                walk_opt(&call.receiver, offenses, source);
                walk_nodes(&call.arguments, offenses, source);
                walk_node(&**bb, offenses, source);
                assert(offense_views(offenses@) =~= mid + spec_scan_call(*call) + opt_walk(
                    call.receiver,
                    source@,
                ) + walk_seq(call.arguments@, source@) + walk(**bb, source@));
            },
        },
        None => {
            append_offenses(offenses, method_call_scanner::scan_call(call));
            walk_opt(&call.receiver, offenses, source);
            walk_nodes(&call.arguments, offenses, source);
            assert(offense_views(offenses@) =~= mid + spec_scan_call(*call) + opt_walk(
                call.receiver,
                source@,
            ) + walk_seq(call.arguments@, source@));
        },
    }
    assert(offense_views(offenses@) =~= base + walk(*node, source@));
}

/// Walk a rescue clause and the chain of clauses after it.
fn walk_rescue_node(rescue: &RescueNode, offenses: &mut Vec<Offense>, source: &[u8])
    ensures
        offense_views(final(offenses)@) == offense_views(old(offenses)@) + walk_rescue(
            *rescue,
            source@,
        ),
    decreases *rescue, 1int,
{
    let ghost base = offense_views(offenses@);
    append_offenses(offenses, rescue_scanner::scan(rescue));
    walk_nodes(&rescue.exceptions, offenses, source);
    walk_opt(&rescue.reference, offenses, source);
    walk_nodes(&rescue.statements, offenses, source);
    match &rescue.subsequent {
        Some(s) => walk_rescue_node(&**s, offenses, source),
        None => {},
    }
    assert(offense_views(offenses@) =~= base + walk_rescue(*rescue, source@));
}

/// Result of analyzing a single file.
#[derive(Debug)]
pub struct AnalysisResult {
    pub path: String,
    pub offenses: Vec<Offense>,
}

/// Result of a failed parse (or read) of a file.
#[derive(Debug)]
pub struct ParseError {
    pub path: String,
    pub message: String,
}

/// The 1-based line holding byte offset `offset`, given the newline table.
pub open spec fn line_of(positions: Seq<usize>, offset: usize) -> usize {
    (1 + count_below(positions, offset)) as usize
}

/// Whether a disabled set switches kind `k` off on `line`.
pub open spec fn disabled_at(d: (Set<usize>, Set<(usize, OffenseKind)>), line: usize, k: OffenseKind) -> bool {
    d.0.contains(line) || d.1.contains((line, k))
}

/// The offenses that are reported, in order: those whose kind the
/// configuration enables, located by line, unless an inline directive
/// disables their kind on their line.
pub open spec fn report(
    offs: Seq<OffenseView>,
    config: ConfigView,
    disabled: (Set<usize>, Set<(usize, OffenseKind)>),
    positions: Seq<usize>,
) -> Seq<OffenseView>
    decreases offs.len(),
{
    if offs.len() == 0 {
        seq![]
    } else {
        let rest = report(offs.drop_last(), config, disabled, positions);
        let o = offs.last();
        let line = line_of(positions, o.1);
        if !config.disabled.contains(o.0) && !disabled_at(disabled, line, o.0) {
            rest.push((o.0, line, o.2))
        } else {
            rest
        }
    }
}

/// The offenses reported for a source, given its tree, the configuration,
/// whether the parser found syntax errors (then nothing is reported), and
/// the spans of its comments.
pub open spec fn spec_analyze(
    source: Seq<u8>,
    root: SyntaxNode,
    config: ConfigView,
    has_errors: bool,
    comments: Seq<(usize, usize)>,
) -> Seq<OffenseView> {
    if has_errors {
        seq![]
    } else {
        let positions = newline_positions(source);
        report(walk(root, source), config, spec_disabled_set(comments, source, positions), positions)
    }
}

fn resolve_offenses(
    found: &Vec<Offense>,
    config: &Config,
    disabled: &DisabledSet,
    positions: &[usize],
) -> (r: Vec<Offense>)
    requires
        strictly_increasing(positions@),
        positions@.len() < usize::MAX,
    ensures
        offense_views(r@) == report(offense_views(found@), config@, disabled@, positions@),
{
    let mut out: Vec<Offense> = Vec::new();
    let ghost fv = offense_views(found@);
    let mut i: usize = 0;
    assert(fv.take(0) =~= Seq::<OffenseView>::empty());
    while i < found.len()
        invariant
            i <= found@.len(),
            fv == offense_views(found@),
            strictly_increasing(positions@),
            positions@.len() < usize::MAX,
            offense_views(out@) == report(fv.take(i as int), config@, disabled@, positions@),
        decreases found@.len() - i,
    {
        assert(fv.take(i + 1).drop_last() =~= fv.take(i as int));
        assert(fv.take(i + 1).last() == found@[i as int]@);
        let o = &found[i];
        if config.is_enabled(o.kind) {
            let line = byte_offset_to_line(positions, o.line);
            if !disabled.is_disabled(line, o.kind) {
                let d = o.duplicate();
                push_offense(&mut out, Offense::with_optional_fix(d.kind, line, d.fix));
            }
        }
        i = i + 1;
    }
    assert(fv.take(i as int) =~= fv);
    out
}

/// Analyze a parsed source: walk its tree, and report the offenses that the
/// configuration enables and no inline directive disables, located by
/// line. When the parser reported syntax errors nothing is reported.
pub fn analyze(
    source: &[u8],
    root: &SyntaxNode,
    config: &Config,
    has_errors: bool,
    comments: &[(usize, usize)],
) -> (r: Vec<Offense>)
    requires
        spans_valid(comments@, source@),
        newline_positions(source@).len() + 3 < usize::MAX,
    ensures
        offense_views(r@) == spec_analyze(source@, *root, config@, has_errors, comments@),
{
    let newline_positions = compute_newline_positions(source);
    if has_errors {
        let r: Vec<Offense> = Vec::new();
        assert(offense_views(r@) =~= Seq::<OffenseView>::empty());
        return r;
    }
    let n = source.len();
    proof {
        assert(source@.len() == n);
        lemma_newline_positions_sorted(source@);
    }
    let disabled = build_disabled_set(comments, source, newline_positions.as_slice());
    let mut found: Vec<Offense> = Vec::new();
    walk_node(root, &mut found, source);
    assert(offense_views(found@) =~= walk(*root, source@));
    resolve_offenses(&found, config, &disabled, newline_positions.as_slice())
}

/// Analyze one file's source: parse it with `ruby_prism`, walk the tree,
/// and report what the configuration and inline directives leave. The
/// parser's report on the source supplies the syntax-error flag and the
/// comments. `None` when a reported comment span starts past the source or
/// ends before it starts, or the source has too many lines to number.
pub fn analyze_file_source(path: &str, source: &[u8], config: &Config) -> (r: Option<
    AnalysisResult,
>)
    ensures
        ({
            let (has_errors, comments) = prism_parse_report(source@);
            let ok = spans_valid(comments, source@) && newline_positions(source@).len() + 3
                < usize::MAX;
            match r {
                Some(a) => ok && a.path@ == path@ && offense_views(a.offenses@) == spec_analyze(
                    source@,
                    prism_tree(source@),
                    config@,
                    has_errors,
                    comments,
                ),
                None => !ok,
            }
        }),
{
    let (has_errors, comments) = prism_report(source);
    if !check_spans(comments.as_slice(), source.len()) {
        return None;
    }
    let newline_positions = compute_newline_positions(source);
    if newline_positions.len() >= usize::MAX - 3 {
        return None;
    }
    let root = parse_tree(source);
    let offenses = analyze(source, &root, config, has_errors, comments.as_slice());
    Some(AnalysisResult { path: String::from_str(path), offenses })
}

proof fn lemma_count_below_le(p: Seq<usize>, offset: usize)
    ensures
        count_below(p, offset) <= p.len(),
    decreases p.len(),
{
    if p.len() > 0 {
        lemma_count_below_le(p.drop_last(), offset);
    }
}

/// Every reported offense is of a kind the configuration enables, lies on
/// a line (counted from one) where no inline directive disables its kind,
/// and is one of the offenses found, with its byte offset turned into a line.
pub proof fn lemma_report_respects_filters(
    offs: Seq<OffenseView>,
    config: ConfigView,
    disabled: (Set<usize>, Set<(usize, OffenseKind)>),
    positions: Seq<usize>,
)
    requires
        positions.len() < usize::MAX,
    ensures
        report(offs, config, disabled, positions).len() <= offs.len(),
        forall|i: int|
            0 <= i < report(offs, config, disabled, positions).len() ==> {
                let o = #[trigger] report(offs, config, disabled, positions)[i];
                &&& !config.disabled.contains(o.0)
                &&& !disabled_at(disabled, o.1, o.0)
                &&& o.1 >= 1
                &&& exists|j: int|
                    0 <= j < offs.len() && offs[j].0 == o.0 && offs[j].2 == o.2 && line_of(
                        positions,
                        offs[j].1,
                    ) == o.1
            },
    decreases offs.len(),
{
    if offs.len() > 0 {
        let pre = offs.drop_last();
        lemma_report_respects_filters(pre, config, disabled, positions);
        let o = offs.last();
        lemma_count_below_le(positions, o.1);
        let rest = report(pre, config, disabled, positions);
        let r = report(offs, config, disabled, positions);
        assert forall|i: int| 0 <= i < r.len() implies {
            let x = #[trigger] r[i];
            &&& !config.disabled.contains(x.0)
            &&& !disabled_at(disabled, x.1, x.0)
            &&& x.1 >= 1
            &&& exists|j: int|
                0 <= j < offs.len() && offs[j].0 == x.0 && offs[j].2 == x.2 && line_of(
                    positions,
                    offs[j].1,
                ) == x.1
        } by {
            if i < rest.len() {
                assert(r[i] == rest[i]);
                let x = rest[i];
                let j = choose|j: int|
                    0 <= j < pre.len() && pre[j].0 == x.0 && pre[j].2 == x.2 && line_of(
                        positions,
                        pre[j].1,
                    ) == x.1;
                assert(offs[j] == pre[j]);
            } else {
                assert(offs[offs.len() - 1] == o);
            }
        }
    }
}

proof fn lemma_opt_walk_fixable(o: Option<Box<SyntaxNode>>, source: Seq<u8>)
    ensures
        fixes_only_on_fixable_kinds(opt_walk(o, source)),
    decreases o, 1int, 1int,
{
    match o {
        Some(x) => lemma_walk_fixable(*x, source),
        None => {},
    }
}

proof fn lemma_walk_fixable(n: SyntaxNode, source: Seq<u8>)
    ensures
        fixes_only_on_fixable_kinds(walk(n, source)),
    decreases n, 1int, 0int,
{
    match n {
        SyntaxNode::For(f) => {
            reveal(spec_scan_for);
            lemma_walk_kids_fixable(n, children(n).len() as int, source);
            lemma_fixable_concat(
                spec_scan_for(f, source),
                walk_kids(n, children(n).len() as int, source),
            );
        },
        SyntaxNode::Begin(b) => {
            assert(decreases_to!(n => b));
            assert(decreases_to!(b => b.statements));
            assert(decreases_to!(b.statements => b.statements@));
            assert(decreases_to!(b => b.else_statements));
            assert(decreases_to!(b.else_statements => b.else_statements@));
            assert(decreases_to!(b => b.ensure_statements));
            assert(decreases_to!(b.ensure_statements => b.ensure_statements@));
            let p1 = walk_seq(b.statements@, source);
            let p2 = match b.rescue_clause {
                Some(r) => walk_rescue(r, source),
                None => seq![],
            };
            let p3 = walk_seq(b.else_statements@, source);
            let p4 = walk_seq(b.ensure_statements@, source);
            lemma_walk_seq_fixable(b.statements@, source);
            match b.rescue_clause {
                Some(r) => lemma_walk_rescue_fixable(r, source),
                None => {},
            }
            lemma_walk_seq_fixable(b.else_statements@, source);
            lemma_walk_seq_fixable(b.ensure_statements@, source);
            lemma_fixable_concat(p1, p2);
            lemma_fixable_concat(p1 + p2, p3);
            lemma_fixable_concat(p1 + p2 + p3, p4);
        },
        SyntaxNode::Rescue(r) => lemma_walk_rescue_fixable(r, source),
        SyntaxNode::Def(d) => {
            lemma_scan_def_fixable(d);
            lemma_opt_walk_fixable(d.body, source);
            lemma_fixable_concat(spec_scan_def(d), opt_walk(d.body, source));
        },
        SyntaxNode::Call(c) => {
            assert(decreases_to!(n => c));
            assert(decreases_to!(c => c.arguments));
            assert(decreases_to!(c.arguments => c.arguments@));
            let recv = opt_walk(c.receiver, source);
            let args = walk_seq(c.arguments@, source);
            lemma_opt_walk_fixable(c.receiver, source);
            lemma_walk_seq_fixable(c.arguments@, source);
            match as_call(c.receiver) {
                Some(rc) => lemma_scan_call_on_block_call_fixable(c, rc),
                None => {},
            }
            assert(fixes_only_on_fixable_kinds(block_chain_offenses(c)));
            let tail = match c.block {
                Some(bb) => match *bb {
                    SyntaxNode::Block(blk) => spec_scan_call_with_block(c, blk) + recv + args + opt_walk(
                        blk.body,
                        source,
                    ),
                    _ => spec_scan_call(c) + recv + args + walk(*bb, source),
                },
                None => spec_scan_call(c) + recv + args,
            };
            match c.block {
                Some(bb) => match *bb {
                    SyntaxNode::Block(blk) => {
                        lemma_scan_call_with_block_fixable(c, blk);
                        lemma_opt_walk_fixable(blk.body, source);
                        lemma_fixable_concat(spec_scan_call_with_block(c, blk), recv);
                        lemma_fixable_concat(spec_scan_call_with_block(c, blk) + recv, args);
                        lemma_fixable_concat(
                            spec_scan_call_with_block(c, blk) + recv + args,
                            opt_walk(blk.body, source),
                        );
                    },
                    _ => {
                        lemma_scan_call_fixable(c);
                        lemma_walk_fixable(*bb, source);
                        lemma_fixable_concat(spec_scan_call(c), recv);
                        lemma_fixable_concat(spec_scan_call(c) + recv, args);
                        lemma_fixable_concat(spec_scan_call(c) + recv + args, walk(*bb, source));
                    },
                },
                None => {
                    lemma_scan_call_fixable(c);
                    lemma_fixable_concat(spec_scan_call(c), recv);
                    lemma_fixable_concat(spec_scan_call(c) + recv, args);
                },
            }
            lemma_fixable_concat(block_chain_offenses(c), tail);
            assert(walk(n, source) == block_chain_offenses(c) + tail);
        },
        _ => {
            lemma_walk_kids_fixable(n, children(n).len() as int, source);
        },
    }
}

proof fn lemma_walk_kids_fixable(n: SyntaxNode, k: int, source: Seq<u8>)
    ensures
        fixes_only_on_fixable_kinds(walk_kids(n, k, source)),
    decreases n, 0int, k,
{
    if 0 < k <= children(n).len() {
        lemma_children_decrease(n);
        assert(decreases_to!(n => children(n)[k - 1]));
        lemma_walk_kids_fixable(n, k - 1, source);
        lemma_walk_fixable(children(n)[k - 1], source);
        lemma_fixable_concat(walk_kids(n, k - 1, source), walk(children(n)[k - 1], source));
    }
}

proof fn lemma_walk_seq_fixable(s: Seq<SyntaxNode>, source: Seq<u8>)
    ensures
        fixes_only_on_fixable_kinds(walk_seq(s, source)),
    decreases s, 0int, 0int,
{
    if s.len() > 0 {
        assert(decreases_to!(s => s.drop_last()));
        assert(decreases_to!(s => s[s.len() - 1]));
        lemma_walk_seq_fixable(s.drop_last(), source);
        lemma_walk_fixable(s.last(), source);
        lemma_fixable_concat(walk_seq(s.drop_last(), source), walk(s.last(), source));
    }
}

proof fn lemma_walk_rescue_fixable(r: RescueNode, source: Seq<u8>)
    ensures
        fixes_only_on_fixable_kinds(walk_rescue(r, source)),
    decreases r, 1int, 0int,
{
    assert(decreases_to!(r => r.exceptions));
    assert(decreases_to!(r.exceptions => r.exceptions@));
    assert(decreases_to!(r => r.statements));
    assert(decreases_to!(r.statements => r.statements@));
    reveal(spec_scan_rescue);
    let p1 = spec_scan_rescue(r);
    let p2 = walk_seq(r.exceptions@, source);
    let p3 = opt_walk(r.reference, source);
    let p4 = walk_seq(r.statements@, source);
    let p5 = match r.subsequent {
        Some(x) => walk_rescue(*x, source),
        None => seq![],
    };
    assert(fixes_only_on_fixable_kinds(p1));
    lemma_walk_seq_fixable(r.exceptions@, source);
    lemma_opt_walk_fixable(r.reference, source);
    lemma_walk_seq_fixable(r.statements@, source);
    match r.subsequent {
        Some(x) => lemma_walk_rescue_fixable(*x, source),
        None => {},
    }
    lemma_fixable_concat(p1, p2);
    lemma_fixable_concat(p1 + p2, p3);
    lemma_fixable_concat(p1 + p2 + p3, p4);
    lemma_fixable_concat(p1 + p2 + p3 + p4, p5);
    assert(walk_rescue(r, source) == p1 + p2 + p3 + p4 + p5);
}

proof fn lemma_report_fixable(
    offs: Seq<OffenseView>,
    config: ConfigView,
    disabled: (Set<usize>, Set<(usize, OffenseKind)>),
    positions: Seq<usize>,
)
    requires
        fixes_only_on_fixable_kinds(offs),
    ensures
        fixes_only_on_fixable_kinds(report(offs, config, disabled, positions)),
    decreases offs.len(),
{
    if offs.len() > 0 {
        let pre = offs.drop_last();
        assert forall|i: int| 0 <= i < pre.len() && (#[trigger] pre[i]).2 is Some implies fixable_kind(
            pre[i].0,
        ) by {
            assert(pre[i] == offs[i]);
        }
        lemma_report_fixable(pre, config, disabled, positions);
        assert(offs[offs.len() - 1] == offs.last());
    }
}

/// Only the eight kinds that come with an auto-fix ever carry one: every
/// offense that the analysis of a source reports with a fix is of a
/// fixable kind.
pub proof fn lemma_only_fixable_kinds_carry_fixes(
    source: Seq<u8>,
    root: SyntaxNode,
    config: ConfigView,
    has_errors: bool,
    comments: Seq<(usize, usize)>,
)
    ensures
        fixes_only_on_fixable_kinds(spec_analyze(source, root, config, has_errors, comments)),
{
    if !has_errors {
        let positions = newline_positions(source);
        lemma_walk_fixable(root, source);
        lemma_report_fixable(
            walk(root, source),
            config,
            spec_disabled_set(comments, source, positions),
            positions,
        );
    }
}

} // verus!
