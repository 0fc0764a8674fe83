//! Offenses found on method calls: chains such as `.shuffle.first`, calls
//! with particular arguments such as `.gsub("a", "b")`, and calls with
//! blocks such as `.map { |x| x.foo }`.

use vstd::prelude::*;
use vstd::string::StringSliceAdditionalSpecFns;

use crate::ast::{BlockNode, CallNode, SyntaxNode};
use crate::ast_helpers::{
    as_call, block_arg_names, body_single_expression, first_arg_is_single_pair_hash,
    has_block_pass, has_full_block, is_int_one, is_primitive, is_single_char_string,
    receiver_as_call, receiver_is_call_with_name, receiver_is_range, single_expression,
    spec_block_arg_names, spec_first_arg_is_single_pair_hash, spec_has_block_pass,
    spec_has_full_block, spec_is_int_one, spec_is_primitive, spec_is_single_char_string,
    spec_receiver_is_call_with_name, spec_receiver_is_range, spec_str_contains_def,
    str_contains_def, string_views,
};
use crate::fix::{Fix, ReplacementView};
use crate::offense::{
    fixes_only_on_fixable_kinds, lemma_fixable_concat, offense_views, push_offense, Offense,
    OffenseKind, OffenseView,
};
use crate::text::{bytes_eq_str, lossy_string, str_eq, utf8_lossy};

verus! {

/// One offense of `kind` at byte offset `at`, with an optional fix.
pub open spec fn found(kind: OffenseKind, at: usize, fix: Option<Seq<ReplacementView>>) -> Seq<
    OffenseView,
> {
    seq![(kind, at, fix)]
}

/// Whether a call's method name is `s`.
pub open spec fn named(c: CallNode, s: &str) -> bool {
    c.name@ == s.spec_bytes()
}

/// `.shuffle.first` → `.sample` (fix: replace from the `.` before
/// `shuffle` to the end of the call).
pub open spec fn spec_check_shuffle_first(c: CallNode) -> Seq<OffenseView> {
    if named(c, "first") && spec_receiver_is_call_with_name(c.receiver, "shuffle".spec_bytes()) {
        found(
            OffenseKind::ShuffleFirstVsSample,
            c.location.start,
            match as_call(c.receiver) {
                Some(rc) => match rc.call_operator_loc {
                    Some(dot) => Some(seq![(dot.start, c.location.end, ".sample"@)]),
                    None => None,
                },
                None => None,
            },
        )
    } else {
        seq![]
    }
}

/// `.reverse.each` → `.reverse_each`.
pub open spec fn spec_check_reverse_each(c: CallNode) -> Seq<OffenseView> {
    if named(c, "each") && spec_receiver_is_call_with_name(c.receiver, "reverse".spec_bytes()) {
        found(
            OffenseKind::ReverseEachVsReverseEach,
            c.location.start,
            match (as_call(c.receiver), c.message_loc) {
                (Some(rc), Some(sel)) => match rc.call_operator_loc {
                    Some(dot) => Some(seq![(dot.start, sel.end, ".reverse_each"@)]),
                    None => None,
                },
                _ => None,
            },
        )
    } else {
        seq![]
    }
}

/// `.keys.each` → `.each_key` (`keys` without arguments).
pub open spec fn spec_check_keys_each(c: CallNode) -> Seq<OffenseView> {
    if named(c, "each") {
        match as_call(c.receiver) {
            Some(rc) => if named(rc, "keys") && rc.arguments@.len() == 0 {
                found(
                    OffenseKind::KeysEachVsEachKey,
                    c.location.start,
                    match (rc.call_operator_loc, c.message_loc) {
                        (Some(dot), Some(sel)) => Some(seq![(dot.start, sel.end, ".each_key"@)]),
                        _ => None,
                    },
                )
            } else {
                seq![]
            },
            None => seq![],
        }
    } else {
        seq![]
    }
}

/// `.select(&blk).first` → `.detect(&blk)` (the receiver passes a block argument).
pub open spec fn spec_check_select_first(c: CallNode) -> Seq<OffenseView> {
    if named(c, "first") && c.arguments@.len() == 0 {
        match as_call(c.receiver) {
            Some(rc) => if named(rc, "select") && spec_has_block_pass(rc) {
                found(
                    OffenseKind::SelectFirstVsDetect,
                    c.location.start,
                    match (rc.message_loc, c.call_operator_loc) {
                        (Some(sel), Some(dot)) => Some(
                            seq![
                                (sel.start, sel.end, "detect"@),
                                (dot.start, c.location.end, ""@),
                            ],
                        ),
                        _ => None,
                    },
                )
            } else {
                seq![]
            },
            None => seq![],
        }
    } else {
        seq![]
    }
}

/// `.select(&blk).last` → `.reverse.detect(&blk)` (no fix).
pub open spec fn spec_check_select_last(c: CallNode) -> Seq<OffenseView> {
    if named(c, "last") && c.arguments@.len() == 0 {
        match as_call(c.receiver) {
            Some(rc) => if named(rc, "select") && spec_has_block_pass(rc) {
                found(OffenseKind::SelectLastVsReverseDetect, c.location.start, None)
            } else {
                seq![]
            },
            None => seq![],
        }
    } else {
        seq![]
    }
}

/// `.map(&blk).flatten(1)` → `.flat_map(&blk)` (receiver without a literal block; no fix).
pub open spec fn spec_check_map_flatten(c: CallNode) -> Seq<OffenseView> {
    if named(c, "flatten") && c.arguments@.len() == 1 && spec_is_int_one(c.arguments@[0]) {
        match as_call(c.receiver) {
            Some(rc) => if named(rc, "map") && !spec_has_full_block(rc) {
                found(OffenseKind::MapFlattenVsFlatMap, c.location.start, None)
            } else {
                seq![]
            },
            None => seq![],
        }
    } else {
        seq![]
    }
}

/// `.each_with_index` → a `while` loop.
pub open spec fn spec_check_each_with_index(c: CallNode) -> Seq<OffenseView> {
    if named(c, "each_with_index") {
        found(OffenseKind::EachWithIndexVsWhile, c.location.start, None)
    } else {
        seq![]
    }
}

/// `(1..10).include?` → `.cover?`.
pub open spec fn spec_check_include_vs_cover(c: CallNode) -> Seq<OffenseView> {
    if named(c, "include?") && spec_receiver_is_range(c.receiver) {
        found(
            OffenseKind::IncludeVsCoverOnRange,
            c.location.start,
            match c.message_loc {
                Some(sel) => Some(seq![(sel.start, sel.end, "cover?"@)]),
                None => None,
            },
        )
    } else {
        seq![]
    }
}

/// `.gsub("x", "y")` → `.tr("x", "y")` when both arguments are one-character strings.
pub open spec fn spec_check_gsub_vs_tr(c: CallNode) -> Seq<OffenseView> {
    if named(c, "gsub") && c.arguments@.len() == 2 && spec_is_single_char_string(c.arguments@[0])
        && spec_is_single_char_string(c.arguments@[1]) {
        found(
            OffenseKind::GsubVsTr,
            c.location.start,
            match c.message_loc {
                Some(sel) => Some(seq![(sel.start, sel.end, "tr"@)]),
                None => None,
            },
        )
    } else {
        seq![]
    }
}

/// `.sort { |a, b| ... }` → `.sort_by` (checked on calls with a block).
pub open spec fn spec_check_sort_vs_sort_by(c: CallNode) -> Seq<OffenseView> {
    if named(c, "sort") {
        found(OffenseKind::SortVsSortBy, c.location.start, None)
    } else {
        seq![]
    }
}

/// `.fetch(k, v)` → `.fetch(k) { v }`.
pub open spec fn spec_check_fetch_with_argument(c: CallNode) -> Seq<OffenseView> {
    if named(c, "fetch") && c.arguments@.len() == 2 && !spec_has_block_pass(c) {
        found(OffenseKind::FetchWithArgumentVsBlock, c.location.start, None)
    } else {
        seq![]
    }
}

/// `.merge!({k: v})` → `h[k] = v` (one argument, a one-pair hash).
pub open spec fn spec_check_hash_merge_bang(c: CallNode) -> Seq<OffenseView> {
    if named(c, "merge!") && c.arguments@.len() == 1 && spec_first_arg_is_single_pair_hash(c) {
        found(OffenseKind::HashMergeBangVsHashBrackets, c.location.start, None)
    } else {
        seq![]
    }
}

/// `.module_eval("def ...")` → `define_method`.
pub open spec fn spec_check_module_eval(c: CallNode) -> Seq<OffenseView> {
    if named(c, "module_eval") && c.arguments@.len() > 0 && spec_str_contains_def(
        c.arguments@[0],
    ) {
        found(OffenseKind::ModuleEval, c.location.start, None)
    } else {
        seq![]
    }
}

/// `.map { |x| x.foo }` → `.map(&:foo)`: the call has no arguments, the
/// block one parameter, and the block's single expression calls a method
/// without arguments or block on that parameter.
pub open spec fn spec_check_block_vs_symbol_to_proc(c: CallNode, b: BlockNode) -> Seq<OffenseView> {
    let names = spec_block_arg_names(b.parameters);
    if c.arguments@.len() == 0 && names.len() == 1 {
        match single_expression(
            match b.body {
                Some(x) => Some(*x),
                None => None,
            },
        ) {
            Some(SyntaxNode::Call(ic)) => if ic.arguments@.len() == 0 && ic.block is None {
                match ic.receiver {
                    Some(r) => if !spec_is_primitive(*r) && (*r matches SyntaxNode::LocalVariableRead {
                        name,
                    } && utf8_lossy(name@) == names[0]) {
                        found(OffenseKind::BlockVsSymbolToProc, c.location.start, None)
                    } else {
                        seq![]
                    },
                    None => seq![],
                }
            } else {
                seq![]
            },
            _ => seq![],
        }
    } else {
        seq![]
    }
}

/// The offenses of a call without a literal block, in reporting order.
#[verifier::opaque]
pub open spec fn spec_scan_call(c: CallNode) -> Seq<OffenseView> {
    spec_check_shuffle_first(c) + spec_check_reverse_each(c) + spec_check_keys_each(c)
        + spec_check_each_with_index(c) + spec_check_include_vs_cover(c) + spec_check_gsub_vs_tr(
        c,
    ) + spec_check_fetch_with_argument(c) + spec_check_hash_merge_bang(c)
        + spec_check_map_flatten(c) + spec_check_select_first(c) + spec_check_select_last(c)
        + spec_check_module_eval(c)
}

/// The offenses of a call with a literal block, in reporting order.
#[verifier::opaque]
pub open spec fn spec_scan_call_with_block(c: CallNode, b: BlockNode) -> Seq<OffenseView> {
    spec_check_sort_vs_sort_by(c) + spec_check_module_eval(c)
        + spec_check_block_vs_symbol_to_proc(c, b) + spec_check_shuffle_first(c)
        + spec_check_reverse_each(c) + spec_check_keys_each(c) + spec_check_each_with_index(c)
        + spec_check_include_vs_cover(c) + spec_check_gsub_vs_tr(c) + spec_check_hash_merge_bang(
        c,
    )
}

/// The fix turning `recv.NAME { }.outer` into `recv.NEW { }`: rename the
/// receiver's method and delete from the outer call's `.` to its end.
pub open spec fn rename_and_drop(rc: CallNode, outer: CallNode, new_name: Seq<char>) -> Option<
    Seq<ReplacementView>,
> {
    match (rc.message_loc, outer.call_operator_loc) {
        (Some(sel), Some(dot)) => Some(
            seq![(sel.start, sel.end, new_name), (dot.start, outer.location.end, ""@)],
        ),
        _ => None,
    }
}

/// The offenses of a call whose receiver is a call with a literal block:
/// `.select { }.first`, `.select { }.last`, `.map { }.flatten(1)`.
#[verifier::opaque]
pub open spec fn spec_scan_call_on_block_call(outer: CallNode, rc: CallNode) -> Seq<OffenseView> {
    (if named(outer, "first") && named(rc, "select") && outer.arguments@.len() == 0 {
        found(
            OffenseKind::SelectFirstVsDetect,
            outer.location.start,
            rename_and_drop(rc, outer, "detect"@),
        )
    } else {
        seq![]
    }) + (if named(outer, "last") && named(rc, "select") && outer.arguments@.len() == 0 {
        found(OffenseKind::SelectLastVsReverseDetect, outer.location.start, None)
    } else {
        seq![]
    }) + (if named(outer, "flatten") && named(rc, "map") && outer.arguments@.len() == 1
        && spec_is_int_one(outer.arguments@[0]) {
        found(
            OffenseKind::MapFlattenVsFlatMap,
            outer.location.start,
            rename_and_drop(rc, outer, "flat_map"@),
        )
    } else {
        seq![]
    })
}

pub(crate) proof fn lemma_scan_call_fixable(c: CallNode)
    ensures
        fixes_only_on_fixable_kinds(spec_scan_call(c)),
{
    reveal(spec_scan_call);
    let p1 = spec_check_shuffle_first(c);
    let p2 = spec_check_reverse_each(c);
    let p3 = spec_check_keys_each(c);
    let p4 = spec_check_each_with_index(c);
    let p5 = spec_check_include_vs_cover(c);
    let p6 = spec_check_gsub_vs_tr(c);
    let p7 = spec_check_fetch_with_argument(c);
    let p8 = spec_check_hash_merge_bang(c);
    let p9 = spec_check_map_flatten(c);
    let p10 = spec_check_select_first(c);
    let p11 = spec_check_select_last(c);
    let p12 = spec_check_module_eval(c);
    assert(fixes_only_on_fixable_kinds(p1));
    assert(fixes_only_on_fixable_kinds(p2));
    assert(fixes_only_on_fixable_kinds(p3));
    assert(fixes_only_on_fixable_kinds(p4));
    assert(fixes_only_on_fixable_kinds(p5));
    assert(fixes_only_on_fixable_kinds(p6));
    assert(fixes_only_on_fixable_kinds(p7));
    assert(fixes_only_on_fixable_kinds(p8));
    assert(fixes_only_on_fixable_kinds(p9));
    assert(fixes_only_on_fixable_kinds(p10));
    assert(fixes_only_on_fixable_kinds(p11));
    assert(fixes_only_on_fixable_kinds(p12));
    lemma_fixable_concat(p1, p2);
    lemma_fixable_concat(p1 + p2, p3);
    lemma_fixable_concat(p1 + p2 + p3, p4);
    lemma_fixable_concat(p1 + p2 + p3 + p4, p5);
    lemma_fixable_concat(p1 + p2 + p3 + p4 + p5, p6);
    lemma_fixable_concat(p1 + p2 + p3 + p4 + p5 + p6, p7);
    lemma_fixable_concat(p1 + p2 + p3 + p4 + p5 + p6 + p7, p8);
    lemma_fixable_concat(p1 + p2 + p3 + p4 + p5 + p6 + p7 + p8, p9);
    lemma_fixable_concat(p1 + p2 + p3 + p4 + p5 + p6 + p7 + p8 + p9, p10);
    lemma_fixable_concat(p1 + p2 + p3 + p4 + p5 + p6 + p7 + p8 + p9 + p10, p11);
    lemma_fixable_concat(p1 + p2 + p3 + p4 + p5 + p6 + p7 + p8 + p9 + p10 + p11, p12);
}

pub(crate) proof fn lemma_scan_call_with_block_fixable(c: CallNode, b: BlockNode)
    ensures
        fixes_only_on_fixable_kinds(spec_scan_call_with_block(c, b)),
{
    reveal(spec_scan_call_with_block);
    let p1 = spec_check_sort_vs_sort_by(c);
    let p2 = spec_check_module_eval(c);
    let p3 = spec_check_block_vs_symbol_to_proc(c, b);
    let p4 = spec_check_shuffle_first(c);
    let p5 = spec_check_reverse_each(c);
    let p6 = spec_check_keys_each(c);
    let p7 = spec_check_each_with_index(c);
    let p8 = spec_check_include_vs_cover(c);
    let p9 = spec_check_gsub_vs_tr(c);
    let p10 = spec_check_hash_merge_bang(c);
    assert(fixes_only_on_fixable_kinds(p1));
    assert(fixes_only_on_fixable_kinds(p2));
    assert(fixes_only_on_fixable_kinds(p3));
    assert(fixes_only_on_fixable_kinds(p4));
    assert(fixes_only_on_fixable_kinds(p5));
    assert(fixes_only_on_fixable_kinds(p6));
    assert(fixes_only_on_fixable_kinds(p7));
    assert(fixes_only_on_fixable_kinds(p8));
    assert(fixes_only_on_fixable_kinds(p9));
    assert(fixes_only_on_fixable_kinds(p10));
    lemma_fixable_concat(p1, p2);
    lemma_fixable_concat(p1 + p2, p3);
    lemma_fixable_concat(p1 + p2 + p3, p4);
    lemma_fixable_concat(p1 + p2 + p3 + p4, p5);
    lemma_fixable_concat(p1 + p2 + p3 + p4 + p5, p6);
    lemma_fixable_concat(p1 + p2 + p3 + p4 + p5 + p6, p7);
    lemma_fixable_concat(p1 + p2 + p3 + p4 + p5 + p6 + p7, p8);
    lemma_fixable_concat(p1 + p2 + p3 + p4 + p5 + p6 + p7 + p8, p9);
    lemma_fixable_concat(p1 + p2 + p3 + p4 + p5 + p6 + p7 + p8 + p9, p10);
}

pub(crate) proof fn lemma_scan_call_on_block_call_fixable(outer: CallNode, rc: CallNode)
    ensures
        fixes_only_on_fixable_kinds(spec_scan_call_on_block_call(outer, rc)),
{
    reveal(spec_scan_call_on_block_call);
    let p1 = if named(outer, "first") && named(rc, "select") && outer.arguments@.len() == 0 {
        found(
            OffenseKind::SelectFirstVsDetect,
            outer.location.start,
            rename_and_drop(rc, outer, "detect"@),
        )
    } else {
        seq![]
    };
    let p2 = if named(outer, "last") && named(rc, "select") && outer.arguments@.len() == 0 {
        found(OffenseKind::SelectLastVsReverseDetect, outer.location.start, None)
    } else {
        seq![]
    };
    let p3 = if named(outer, "flatten") && named(rc, "map") && outer.arguments@.len() == 1
        && spec_is_int_one(outer.arguments@[0]) {
        found(
            OffenseKind::MapFlattenVsFlatMap,
            outer.location.start,
            rename_and_drop(rc, outer, "flat_map"@),
        )
    } else {
        seq![]
    };
    assert(fixes_only_on_fixable_kinds(p1));
    assert(fixes_only_on_fixable_kinds(p2));
    assert(fixes_only_on_fixable_kinds(p3));
    lemma_fixable_concat(p1, p2);
    lemma_fixable_concat(p1 + p2, p3);
}

fn check_shuffle_first(call: &CallNode, offenses: &mut Vec<Offense>)
    ensures
        offense_views(final(offenses)@) == offense_views(old(offenses)@)
            + spec_check_shuffle_first(*call),
{
    if !bytes_eq_str(call.name.as_slice(), "first") || !receiver_is_call_with_name(
        &call.receiver,
        "shuffle".as_bytes(),
    ) {
        assert(spec_check_shuffle_first(*call) =~= seq![]);
        assert(offense_views(offenses@) =~= offense_views(old(offenses)@) + seq![]);
        return ;
    }
    let fix = match receiver_as_call(&call.receiver) {
        Some(rs) => match rs.call_operator_loc {
            Some(dot) => Some(Fix::single(dot.start, call.location.end, ".sample")),
            None => None,
        },
        None => None,
    };
    let offense = match fix {
        Some(f) => Offense::with_fix(OffenseKind::ShuffleFirstVsSample, call.location.start, f),
        None => Offense::new(OffenseKind::ShuffleFirstVsSample, call.location.start),
    };
    push_offense(offenses, offense);
}

fn check_reverse_each(call: &CallNode, offenses: &mut Vec<Offense>)
    ensures
        offense_views(final(offenses)@) == offense_views(old(offenses)@)
            + spec_check_reverse_each(*call),
{
    if !bytes_eq_str(call.name.as_slice(), "each") || !receiver_is_call_with_name(
        &call.receiver,
        "reverse".as_bytes(),
    ) {
        assert(offense_views(offenses@) =~= offense_views(old(offenses)@) + seq![]);
        return ;
    }
    let fix = match (receiver_as_call(&call.receiver), call.message_loc) {
        (Some(rs), Some(sel)) => match rs.call_operator_loc {
            Some(dot) => Some(Fix::single(dot.start, sel.end, ".reverse_each")),
            None => None,
        },
        _ => None,
    };
    let offense = match fix {
        Some(f) => Offense::with_fix(OffenseKind::ReverseEachVsReverseEach, call.location.start, f),
        None => Offense::new(OffenseKind::ReverseEachVsReverseEach, call.location.start),
    };
    push_offense(offenses, offense);
}

fn check_keys_each(call: &CallNode, offenses: &mut Vec<Offense>)
    ensures
        offense_views(final(offenses)@) == offense_views(old(offenses)@) + spec_check_keys_each(
            *call,
        ),
{
    if bytes_eq_str(call.name.as_slice(), "each") {
        match receiver_as_call(&call.receiver) {
            Some(rc) => {
                if bytes_eq_str(rc.name.as_slice(), "keys") && rc.arguments.len() == 0 {
                    let fix = match (rc.call_operator_loc, call.message_loc) {
                        (Some(dot), Some(sel)) => Some(
                            Fix::single(dot.start, sel.end, ".each_key"),
                        ),
                        _ => None,
                    };
                    let offense = match fix {
                        Some(f) => Offense::with_fix(
                            OffenseKind::KeysEachVsEachKey,
                            call.location.start,
                            f,
                        ),
                        None => Offense::new(OffenseKind::KeysEachVsEachKey, call.location.start),
                    };
                    push_offense(offenses, offense);
                    return ;
                }
            },
            None => {},
        }
    }
    assert(offense_views(offenses@) =~= offense_views(old(offenses)@) + seq![]);
}

fn check_select_first(call: &CallNode, offenses: &mut Vec<Offense>)
    ensures
        offense_views(final(offenses)@) == offense_views(old(offenses)@)
            + spec_check_select_first(*call),
{
    if bytes_eq_str(call.name.as_slice(), "first") && call.arguments.len() == 0 {
        match receiver_as_call(&call.receiver) {
            Some(rc) => {
                if bytes_eq_str(rc.name.as_slice(), "select") && has_block_pass(rc) {
                    let fix = match (rc.message_loc, call.call_operator_loc) {
                        (Some(sel), Some(dot)) => Some(
                            Fix::two(sel.start, sel.end, "detect", dot.start, call.location.end, ""),
                        ),
                        _ => None,
                    };
                    let offense = match fix {
                        Some(f) => Offense::with_fix(
                            OffenseKind::SelectFirstVsDetect,
                            call.location.start,
                            f,
                        ),
                        None => Offense::new(OffenseKind::SelectFirstVsDetect, call.location.start),
                    };
                    push_offense(offenses, offense);
                    return ;
                }
            },
            None => {},
        }
    }
    assert(offense_views(offenses@) =~= offense_views(old(offenses)@) + seq![]);
}

fn check_select_last(call: &CallNode, offenses: &mut Vec<Offense>)
    ensures
        offense_views(final(offenses)@) == offense_views(old(offenses)@)
            + spec_check_select_last(*call),
{
    if bytes_eq_str(call.name.as_slice(), "last") && call.arguments.len() == 0 {
        match receiver_as_call(&call.receiver) {
            Some(rc) => {
                if bytes_eq_str(rc.name.as_slice(), "select") && has_block_pass(rc) {
                    push_offense(
                        offenses,
                        Offense::new(OffenseKind::SelectLastVsReverseDetect, call.location.start),
                    );
                    return ;
                }
            },
            None => {},
        }
    }
    assert(offense_views(offenses@) =~= offense_views(old(offenses)@) + seq![]);
}

fn check_map_flatten(call: &CallNode, offenses: &mut Vec<Offense>)
    ensures
        offense_views(final(offenses)@) == offense_views(old(offenses)@)
            + spec_check_map_flatten(*call),
{
    if bytes_eq_str(call.name.as_slice(), "flatten") && call.arguments.len() == 1 && is_int_one(
        &call.arguments[0],
    ) {
        match receiver_as_call(&call.receiver) {
            Some(rc) => {
                if bytes_eq_str(rc.name.as_slice(), "map") && !has_full_block(rc) {
                    push_offense(
                        offenses,
                        Offense::new(OffenseKind::MapFlattenVsFlatMap, call.location.start),
                    );
                    return ;
                }
            },
            None => {},
        }
    }
    assert(offense_views(offenses@) =~= offense_views(old(offenses)@) + seq![]);
}

fn check_each_with_index(call: &CallNode, offenses: &mut Vec<Offense>)
    ensures
        offense_views(final(offenses)@) == offense_views(old(offenses)@)
            + spec_check_each_with_index(*call),
{
    if bytes_eq_str(call.name.as_slice(), "each_with_index") {
        push_offense(offenses, Offense::new(OffenseKind::EachWithIndexVsWhile, call.location.start));
    } else {
        assert(offense_views(offenses@) =~= offense_views(old(offenses)@) + seq![]);
    }
}

fn check_include_vs_cover(call: &CallNode, offenses: &mut Vec<Offense>)
    ensures
        offense_views(final(offenses)@) == offense_views(old(offenses)@)
            + spec_check_include_vs_cover(*call),
{
    if !bytes_eq_str(call.name.as_slice(), "include?") || !receiver_is_range(&call.receiver) {
        assert(offense_views(offenses@) =~= offense_views(old(offenses)@) + seq![]);
        return ;
    }
    let offense = match call.message_loc {
        Some(sel) => Offense::with_fix(
            OffenseKind::IncludeVsCoverOnRange,
            call.location.start,
            Fix::single(sel.start, sel.end, "cover?"),
        ),
        None => Offense::new(OffenseKind::IncludeVsCoverOnRange, call.location.start),
    };
    push_offense(offenses, offense);
}

fn check_gsub_vs_tr(call: &CallNode, offenses: &mut Vec<Offense>)
    ensures
        offense_views(final(offenses)@) == offense_views(old(offenses)@) + spec_check_gsub_vs_tr(
            *call,
        ),
{
    if bytes_eq_str(call.name.as_slice(), "gsub") && call.arguments.len() == 2
        && is_single_char_string(&call.arguments[0]) && is_single_char_string(
        &call.arguments[1],
    ) {
        let offense = match call.message_loc {
            Some(sel) => Offense::with_fix(
                OffenseKind::GsubVsTr,
                call.location.start,
                Fix::single(sel.start, sel.end, "tr"),
            ),
            None => Offense::new(OffenseKind::GsubVsTr, call.location.start),
        };
        push_offense(offenses, offense);
    } else {
        assert(offense_views(offenses@) =~= offense_views(old(offenses)@) + seq![]);
    }
}

fn check_sort_vs_sort_by(call: &CallNode, offenses: &mut Vec<Offense>)
    ensures
        offense_views(final(offenses)@) == offense_views(old(offenses)@)
            + spec_check_sort_vs_sort_by(*call),
{
    if bytes_eq_str(call.name.as_slice(), "sort") {
        push_offense(offenses, Offense::new(OffenseKind::SortVsSortBy, call.location.start));
    } else {
        assert(offense_views(offenses@) =~= offense_views(old(offenses)@) + seq![]);
    }
}

fn check_fetch_with_argument(call: &CallNode, offenses: &mut Vec<Offense>)
    ensures
        offense_views(final(offenses)@) == offense_views(old(offenses)@)
            + spec_check_fetch_with_argument(*call),
{
    if bytes_eq_str(call.name.as_slice(), "fetch") && call.arguments.len() == 2 && !has_block_pass(
        call,
    ) {
        push_offense(
            offenses,
            Offense::new(OffenseKind::FetchWithArgumentVsBlock, call.location.start),
        );
    } else {
        assert(offense_views(offenses@) =~= offense_views(old(offenses)@) + seq![]);
    }
}

fn check_hash_merge_bang(call: &CallNode, offenses: &mut Vec<Offense>)
    ensures
        offense_views(final(offenses)@) == offense_views(old(offenses)@)
            + spec_check_hash_merge_bang(*call),
{
    if bytes_eq_str(call.name.as_slice(), "merge!") && call.arguments.len() == 1
        && first_arg_is_single_pair_hash(call) {
        push_offense(
            offenses,
            Offense::new(OffenseKind::HashMergeBangVsHashBrackets, call.location.start),
        );
    } else {
        assert(offense_views(offenses@) =~= offense_views(old(offenses)@) + seq![]);
    }
}

fn check_module_eval_call(call: &CallNode, offenses: &mut Vec<Offense>)
    ensures
        offense_views(final(offenses)@) == offense_views(old(offenses)@)
            + spec_check_module_eval(*call),
{
    if bytes_eq_str(call.name.as_slice(), "module_eval") && call.arguments.len() > 0
        && str_contains_def(&call.arguments[0]) {
        push_offense(offenses, Offense::new(OffenseKind::ModuleEval, call.location.start));
    } else {
        assert(offense_views(offenses@) =~= offense_views(old(offenses)@) + seq![]);
    }
}

fn check_block_vs_symbol_to_proc(call: &CallNode, block: &BlockNode, offenses: &mut Vec<Offense>)
    ensures
        offense_views(final(offenses)@) == offense_views(old(offenses)@)
            + spec_check_block_vs_symbol_to_proc(*call, *block),
{
    assert(offense_views(old(offenses)@) + seq![] =~= offense_views(old(offenses)@));
    if call.arguments.len() != 0 {
        return ;
    }
    let arg_names = block_arg_names(&block.parameters);
    if arg_names.len() != 1 {
        return ;
    }
    assert(string_views(arg_names@)[0] == arg_names@[0]@);
    let body = match &block.body {
        Some(b) => Some(&**b),
        None => None,
    };
    let inner = match body_single_expression(body) {
        Some(n) => n,
        None => {
            return ;
        },
    };
    let inner_call = match inner {
        SyntaxNode::Call(c) => c,
        _ => {
            return ;
        },
    };
    if inner_call.arguments.len() != 0 || inner_call.block.is_some() {
        return ;
    }
    let receiver = match &inner_call.receiver {
        Some(r) => &**r,
        None => {
            return ;
        },
    };
    if is_primitive(receiver) {
        return ;
    }
    match receiver {
        SyntaxNode::LocalVariableRead { name } => {
            let s = lossy_string(name.as_slice());
            if str_eq(s.as_str(), arg_names[0].as_str()) {
                push_offense(
                    offenses,
                    Offense::new(OffenseKind::BlockVsSymbolToProc, call.location.start),
                );
            }
        },
        _ => {},
    }
}

/// Scan a method call that does not have a literal block.
pub fn scan_call(call: &CallNode) -> (r: Vec<Offense>)
    ensures
        offense_views(r@) == spec_scan_call(*call),
{
    let mut offenses: Vec<Offense> = Vec::new();
    assert(offense_views(offenses@) =~= seq![]);
    check_shuffle_first(call, &mut offenses);
    check_reverse_each(call, &mut offenses);
    check_keys_each(call, &mut offenses);
    check_each_with_index(call, &mut offenses);
    check_include_vs_cover(call, &mut offenses);
    check_gsub_vs_tr(call, &mut offenses);
    check_fetch_with_argument(call, &mut offenses);
    check_hash_merge_bang(call, &mut offenses);
    check_map_flatten(call, &mut offenses);
    check_select_first(call, &mut offenses);
    check_select_last(call, &mut offenses);
    check_module_eval_call(call, &mut offenses);
    proof {
        reveal(spec_scan_call);
    }
    assert(offense_views(offenses@) =~= spec_scan_call(*call));
    offenses
}

/// Scan a method call together with its literal block.
pub fn scan_call_with_block(call: &CallNode, block: &BlockNode) -> (r: Vec<Offense>)
    ensures
        offense_views(r@) == spec_scan_call_with_block(*call, *block),
{
    let mut offenses: Vec<Offense> = Vec::new();
    assert(offense_views(offenses@) =~= seq![]);
    check_sort_vs_sort_by(call, &mut offenses);
    check_module_eval_call(call, &mut offenses);
    check_block_vs_symbol_to_proc(call, block, &mut offenses);
    check_shuffle_first(call, &mut offenses);
    check_reverse_each(call, &mut offenses);
    check_keys_each(call, &mut offenses);
    check_each_with_index(call, &mut offenses);
    check_include_vs_cover(call, &mut offenses);
    check_gsub_vs_tr(call, &mut offenses);
    check_hash_merge_bang(call, &mut offenses);
    proof {
        reveal(spec_scan_call_with_block);
    }
    assert(offense_views(offenses@) =~= spec_scan_call_with_block(*call, *block));
    offenses
}

fn rename_and_drop_fix(rc: &CallNode, outer: &CallNode, new_name: &str) -> (r: Option<Fix>)
    ensures
        match r {
            Some(f) => rename_and_drop(*rc, *outer, new_name@) == Some(f@),
            None => rename_and_drop(*rc, *outer, new_name@) is None,
        },
{
    match (rc.message_loc, outer.call_operator_loc) {
        (Some(sel), Some(dot)) => Some(
            Fix::two(sel.start, sel.end, new_name, dot.start, outer.location.end, ""),
        ),
        _ => None,
    }
}

fn offense_with_optional(kind: OffenseKind, at: usize, fix: Option<Fix>) -> (r: Offense)
    ensures
        r@ == (kind, at, match fix {
            Some(f) => Some(f@),
            None => None,
        }),
{
    match fix {
        Some(f) => Offense::with_fix(kind, at, f),
        None => Offense::new(kind, at),
    }
}

/// Scan a call whose receiver is a call with a literal block (chains such
/// as `.select { }.first`).
pub fn scan_call_on_block_call(outer: &CallNode, recv_call: &CallNode) -> (r: Vec<Offense>)
    ensures
        offense_views(r@) == spec_scan_call_on_block_call(*outer, *recv_call),
{
    let mut offenses: Vec<Offense> = Vec::new();
    let ghost v0 = offense_views(offenses@);
    let outer_first = bytes_eq_str(outer.name.as_slice(), "first");
    let outer_last = bytes_eq_str(outer.name.as_slice(), "last");
    let outer_flatten = bytes_eq_str(outer.name.as_slice(), "flatten");
    let recv_select = bytes_eq_str(recv_call.name.as_slice(), "select");
    let recv_map = bytes_eq_str(recv_call.name.as_slice(), "map");
    if outer_first && recv_select && outer.arguments.len() == 0 {
        let fix = rename_and_drop_fix(recv_call, outer, "detect");
        push_offense(
            &mut offenses,
            offense_with_optional(OffenseKind::SelectFirstVsDetect, outer.location.start, fix),
        );
    }
    let ghost v1 = offense_views(offenses@);
    if outer_last && recv_select && outer.arguments.len() == 0 {
        push_offense(
            &mut offenses,
            Offense::new(OffenseKind::SelectLastVsReverseDetect, outer.location.start),
        );
    }
    let ghost v2 = offense_views(offenses@);
    if outer_flatten && recv_map && outer.arguments.len() == 1 && is_int_one(&outer.arguments[0]) {
        let fix = rename_and_drop_fix(recv_call, outer, "flat_map");
        push_offense(
            &mut offenses,
            offense_with_optional(OffenseKind::MapFlattenVsFlatMap, outer.location.start, fix),
        );
    }
    proof {
        reveal(spec_scan_call_on_block_call);
    }
    assert(offense_views(offenses@) =~= spec_scan_call_on_block_call(*outer, *recv_call));
    offenses
}

/// The text a method-call auto-fix writes first, by kind: the method (or
/// `.method`) that the rule recommends.
pub open spec fn call_fix_text(k: OffenseKind) -> Seq<char> {
    match k {
        OffenseKind::ShuffleFirstVsSample => ".sample"@,
        OffenseKind::SelectFirstVsDetect => "detect"@,
        OffenseKind::ReverseEachVsReverseEach => ".reverse_each"@,
        OffenseKind::KeysEachVsEachKey => ".each_key"@,
        OffenseKind::MapFlattenVsFlatMap => "flat_map"@,
        OffenseKind::GsubVsTr => "tr"@,
        OffenseKind::IncludeVsCoverOnRange => "cover?"@,
        _ => ""@,
    }
}

/// The method a call must be named for a rule to fire on it (`None` for the
/// rule on a call's literal block, which fires whatever the method).
pub open spec fn call_rule_method(k: OffenseKind) -> Option<Seq<u8>> {
    match k {
        OffenseKind::ShuffleFirstVsSample => Some("first".spec_bytes()),
        OffenseKind::SelectFirstVsDetect => Some("first".spec_bytes()),
        OffenseKind::SelectLastVsReverseDetect => Some("last".spec_bytes()),
        OffenseKind::ReverseEachVsReverseEach => Some("each".spec_bytes()),
        OffenseKind::KeysEachVsEachKey => Some("each".spec_bytes()),
        OffenseKind::MapFlattenVsFlatMap => Some("flatten".spec_bytes()),
        OffenseKind::GsubVsTr => Some("gsub".spec_bytes()),
        OffenseKind::SortVsSortBy => Some("sort".spec_bytes()),
        OffenseKind::FetchWithArgumentVsBlock => Some("fetch".spec_bytes()),
        OffenseKind::HashMergeBangVsHashBrackets => Some("merge!".spec_bytes()),
        OffenseKind::EachWithIndexVsWhile => Some("each_with_index".spec_bytes()),
        OffenseKind::IncludeVsCoverOnRange => Some("include?".spec_bytes()),
        OffenseKind::ModuleEval => Some("module_eval".spec_bytes()),
        _ => None,
    }
}

/// Whether an offense found on call `c` sits at the start of the call, is
/// of a rule for the call's method, and carries the fix its rule calls for:
/// - `.shuffle.first` → `.sample`: from the receiver's `.` to the end of the call;
/// - `.reverse.each` / `.keys.each` → `.reverse_each` / `.each_key`: from the
///   receiver's `.` to the end of `each`;
/// - `.gsub` → `tr`, `.include?` → `cover?`: the method name only;
/// - `.select(..).first` → `.detect(..)`, `.map { }.flatten(1)` →
///   `.flat_map { }`: rename the receiver's method, and delete from the
///   call's `.` to its end.
pub open spec fn call_fix_as_documented(c: CallNode, o: OffenseView) -> bool {
    &&& o.1 == c.location.start
    &&& (call_rule_method(o.0) matches Some(m) ==> c.name@ == m)
    &&& (o.2 matches Some(fix) ==> {
        &&& fix.len() >= 1
        &&& fix[0].2 == call_fix_text(o.0)
        &&& (o.0 == OffenseKind::SelectFirstVsDetect || o.0 == OffenseKind::MapFlattenVsFlatMap)
            ==> {
            &&& fix.len() == 2
            &&& fix[1].2 == ""@
            &&& fix[1].1 == c.location.end
            &&& (c.call_operator_loc matches Some(dot) && fix[1].0 == dot.start)
            &&& (as_call(c.receiver) matches Some(rc) && (rc.message_loc matches Some(sel)
                && fix[0].0 == sel.start && fix[0].1 == sel.end))
        }
        &&& o.0 == OffenseKind::ShuffleFirstVsSample ==> fix.len() == 1 && fix[0].1
            == c.location.end && (as_call(c.receiver) matches Some(rc) && (rc.call_operator_loc matches Some(
            dot,
        ) && fix[0].0 == dot.start))
        &&& (o.0 == OffenseKind::ReverseEachVsReverseEach || o.0 == OffenseKind::KeysEachVsEachKey)
            ==> fix.len() == 1 && (c.message_loc matches Some(sel) && fix[0].1 == sel.end) && (as_call(
            c.receiver,
        ) matches Some(rc) && (rc.call_operator_loc matches Some(dot) && fix[0].0 == dot.start))
        &&& (o.0 == OffenseKind::GsubVsTr || o.0 == OffenseKind::IncludeVsCoverOnRange) ==> fix.len()
            == 1 && (c.message_loc matches Some(sel) && fix[0].0 == sel.start && fix[0].1
            == sel.end)
    })
}

/// Whether every offense of a list found on call `c` is as documented.
pub open spec fn call_fixes_as_documented(c: CallNode, offs: Seq<OffenseView>) -> bool {
    forall|i: int| 0 <= i < offs.len() ==> call_fix_as_documented(c, #[trigger] offs[i])
}

proof fn lemma_documented_concat(c: CallNode, a: Seq<OffenseView>, b: Seq<OffenseView>)
    requires
        call_fixes_as_documented(c, a),
        call_fixes_as_documented(c, b),
    ensures
        call_fixes_as_documented(c, a + b),
{
    assert forall|i: int| 0 <= i < (a + b).len() implies call_fix_as_documented(
        c,
        #[trigger] (a + b)[i],
    ) by {
        if i < a.len() {
            assert((a + b)[i] == a[i]);
        } else {
            assert((a + b)[i] == b[i - a.len()]);
        }
    }
}

/// Every offense the scanner finds on a call without a literal block sits
/// at the start of the call and carries the fix its rule calls for.
pub proof fn lemma_scan_call_fixes_as_documented(c: CallNode)
    ensures
        call_fixes_as_documented(c, spec_scan_call(c)),
{
    reveal(spec_scan_call);
    let p1 = spec_check_shuffle_first(c);
    let p2 = spec_check_reverse_each(c);
    let p3 = spec_check_keys_each(c);
    let p4 = spec_check_each_with_index(c);
    let p5 = spec_check_include_vs_cover(c);
    let p6 = spec_check_gsub_vs_tr(c);
    let p7 = spec_check_fetch_with_argument(c);
    let p8 = spec_check_hash_merge_bang(c);
    let p9 = spec_check_map_flatten(c);
    let p10 = spec_check_select_first(c);
    let p11 = spec_check_select_last(c);
    let p12 = spec_check_module_eval(c);
    assert(call_fixes_as_documented(c, p1));
    assert(call_fixes_as_documented(c, p2));
    assert(call_fixes_as_documented(c, p3));
    assert(call_fixes_as_documented(c, p4));
    assert(call_fixes_as_documented(c, p5));
    assert(call_fixes_as_documented(c, p6));
    assert(call_fixes_as_documented(c, p7));
    assert(call_fixes_as_documented(c, p8));
    assert(call_fixes_as_documented(c, p9));
    assert(call_fixes_as_documented(c, p10));
    assert(call_fixes_as_documented(c, p11));
    assert(call_fixes_as_documented(c, p12));
    lemma_documented_concat(c, p1, p2);
    lemma_documented_concat(c, p1 + p2, p3);
    lemma_documented_concat(c, p1 + p2 + p3, p4);
    lemma_documented_concat(c, p1 + p2 + p3 + p4, p5);
    lemma_documented_concat(c, p1 + p2 + p3 + p4 + p5, p6);
    lemma_documented_concat(c, p1 + p2 + p3 + p4 + p5 + p6, p7);
    lemma_documented_concat(c, p1 + p2 + p3 + p4 + p5 + p6 + p7, p8);
    lemma_documented_concat(c, p1 + p2 + p3 + p4 + p5 + p6 + p7 + p8, p9);
    lemma_documented_concat(c, p1 + p2 + p3 + p4 + p5 + p6 + p7 + p8 + p9, p10);
    lemma_documented_concat(c, p1 + p2 + p3 + p4 + p5 + p6 + p7 + p8 + p9 + p10, p11);
    lemma_documented_concat(c, p1 + p2 + p3 + p4 + p5 + p6 + p7 + p8 + p9 + p10 + p11, p12);
}


/// Every offense the scanner finds on a call with a literal block sits at
/// the start of the call and carries the fix its rule calls for.
pub proof fn lemma_scan_call_with_block_fixes_as_documented(c: CallNode, b: BlockNode)
    ensures
        call_fixes_as_documented(c, spec_scan_call_with_block(c, b)),
{
    reveal(spec_scan_call_with_block);
    let p1 = spec_check_sort_vs_sort_by(c);
    let p2 = spec_check_module_eval(c);
    let p3 = spec_check_block_vs_symbol_to_proc(c, b);
    let p4 = spec_check_shuffle_first(c);
    let p5 = spec_check_reverse_each(c);
    let p6 = spec_check_keys_each(c);
    let p7 = spec_check_each_with_index(c);
    let p8 = spec_check_include_vs_cover(c);
    let p9 = spec_check_gsub_vs_tr(c);
    let p10 = spec_check_hash_merge_bang(c);
    assert(call_fixes_as_documented(c, p1));
    assert(call_fixes_as_documented(c, p2));
    assert(call_fixes_as_documented(c, p3));
    assert(call_fixes_as_documented(c, p4));
    assert(call_fixes_as_documented(c, p5));
    assert(call_fixes_as_documented(c, p6));
    assert(call_fixes_as_documented(c, p7));
    assert(call_fixes_as_documented(c, p8));
    assert(call_fixes_as_documented(c, p9));
    assert(call_fixes_as_documented(c, p10));
    lemma_documented_concat(c, p1, p2);
    lemma_documented_concat(c, p1 + p2, p3);
    lemma_documented_concat(c, p1 + p2 + p3, p4);
    lemma_documented_concat(c, p1 + p2 + p3 + p4, p5);
    lemma_documented_concat(c, p1 + p2 + p3 + p4 + p5, p6);
    lemma_documented_concat(c, p1 + p2 + p3 + p4 + p5 + p6, p7);
    lemma_documented_concat(c, p1 + p2 + p3 + p4 + p5 + p6 + p7, p8);
    lemma_documented_concat(c, p1 + p2 + p3 + p4 + p5 + p6 + p7 + p8, p9);
    lemma_documented_concat(c, p1 + p2 + p3 + p4 + p5 + p6 + p7 + p8 + p9, p10);
}

/// Every offense found on a call whose receiver is a call with a literal
/// block (`.select { }.first`, `.select { }.last`, `.map { }.flatten(1)`)
/// sits at the start of the outer call and carries the fix its rule calls
/// for: the receiver's method renamed to `detect` or `flat_map`, and the
/// outer call deleted from its `.` to its end.
pub proof fn lemma_scan_call_on_block_call_fixes_as_documented(outer: CallNode, rc: CallNode)
    requires
        as_call(outer.receiver) == Some(rc),
    ensures
        call_fixes_as_documented(outer, spec_scan_call_on_block_call(outer, rc)),
{
    reveal(spec_scan_call_on_block_call);
    let c = outer;
    let p1 = if named(outer, "first") && named(rc, "select") && outer.arguments@.len() == 0 {
        found(
            OffenseKind::SelectFirstVsDetect,
            outer.location.start,
            rename_and_drop(rc, outer, "detect"@),
        )
    } else {
        seq![]
    };
    let p2 = if named(outer, "last") && named(rc, "select") && outer.arguments@.len() == 0 {
        found(OffenseKind::SelectLastVsReverseDetect, outer.location.start, None)
    } else {
        seq![]
    };
    let p3 = if named(outer, "flatten") && named(rc, "map") && outer.arguments@.len() == 1
        && spec_is_int_one(outer.arguments@[0]) {
        found(
            OffenseKind::MapFlattenVsFlatMap,
            outer.location.start,
            rename_and_drop(rc, outer, "flat_map"@),
        )
    } else {
        seq![]
    };
    assert(call_fixes_as_documented(c, p1));
    assert(call_fixes_as_documented(c, p2));
    assert(call_fixes_as_documented(c, p3));
    lemma_documented_concat(c, p1, p2);
    lemma_documented_concat(c, p1 + p2, p3);
}

} // verus!
