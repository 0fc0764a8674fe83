//! Offenses found on method definitions: calling a block parameter with
//! `.call` instead of `yield`, and hand-written getters and setters.

use vstd::prelude::*;
use vstd::string::StringSliceAdditionalSpecFns;

use crate::ast::{children, DefNode, SyntaxNode};
use crate::ast_helpers::{
    body_single_expression, def_block_arg_name, def_first_arg_name, def_regular_arg_count,
    single_expression, spec_def_block_arg_name, spec_def_first_arg_name,
    spec_def_regular_arg_count,
};
use crate::ast_visitor::{
    descendants_of_kids, for_each_direct_child, lemma_children_decrease, spec_descendants,
};
use crate::offense::{
    fixes_only_on_fixable_kinds, lemma_fixable_concat, offense_views, push_offense, Offense,
    OffenseKind, OffenseView,
};
use crate::scanner::method_call_scanner::found;
use crate::text::{bytes_eq_str, lossy_string, str_eq, utf8_lossy};

verus! {

/// Whether a node is `name.call`, with `name` a local variable.
pub open spec fn is_block_call(n: SyntaxNode, name: Seq<char>) -> bool {
    match n {
        SyntaxNode::Call(c) => c.name@ == "call".spec_bytes() && match c.receiver {
            Some(r) => match *r {
                SyntaxNode::LocalVariableRead { name: lv } => utf8_lossy(lv@) == name,
                _ => false,
            },
            None => false,
        },
        _ => false,
    }
}

/// Whether a node or any node below it is `name.call`.
pub open spec fn contains_block_call(n: SyntaxNode, name: Seq<char>) -> bool
    decreases n,
{
    proof {
        lemma_children_decrease(n);
    }
    is_block_call(n, name) || exists|i: int|
        0 <= i < children(n).len() && contains_block_call(#[trigger] children(n)[i], name)
}

/// The single expression of a method body, if it has exactly one.
pub open spec fn def_single_expression(d: DefNode) -> Option<SyntaxNode> {
    single_expression(
        match d.body {
            Some(b) => Some(*b),
            None => None,
        },
    )
}

/// Whether a byte string ends with `=`.
pub open spec fn ends_with_eq(name: Seq<u8>) -> bool {
    name.len() > 0 && name.last() == 61u8
}

/// `def foo(&block); block.call; end` → use `yield`.
pub open spec fn spec_check_proc_call_vs_yield(d: DefNode) -> Seq<OffenseView> {
    match spec_def_block_arg_name(d) {
        Some(name) => if (match d.body {
            Some(b) => contains_block_call(*b, name),
            None => false,
        }) {
            found(OffenseKind::ProcCallVsYield, d.def_keyword_loc.start, None)
        } else {
            seq![]
        },
        None => seq![],
    }
}

/// `def name; @name; end` → use `attr_reader :name`.
pub open spec fn spec_check_getter_vs_attr_reader(d: DefNode) -> Seq<OffenseView> {
    if !ends_with_eq(d.name@) && spec_def_regular_arg_count(d) == 0 && (def_single_expression(
        d,
    ) matches Some(SyntaxNode::InstanceVariableRead { name }) && name@ == seq![64u8] + d.name@) {
        found(OffenseKind::GetterVsAttrReader, d.def_keyword_loc.start, None)
    } else {
        seq![]
    }
}

/// `def name=(value); @name = value; end` → use `attr_writer :name`.
pub open spec fn spec_check_setter_vs_attr_writer(d: DefNode) -> Seq<OffenseView> {
    if ends_with_eq(d.name@) && spec_def_regular_arg_count(d) == 1 {
        match spec_def_first_arg_name(d) {
            Some(arg) => match def_single_expression(d) {
                Some(SyntaxNode::InstanceVariableWrite { name, value }) => if name@ == seq![64u8]
                    + d.name@.drop_last() && (*value matches SyntaxNode::LocalVariableRead { name: lv }
                    && utf8_lossy(lv@) == arg) {
                    found(OffenseKind::SetterVsAttrWriter, d.def_keyword_loc.start, None)
                } else {
                    seq![]
                },
                _ => seq![],
            },
            None => seq![],
        }
    } else {
        seq![]
    }
}

/// The offenses of a method definition, in reporting order.
#[verifier::opaque]
pub open spec fn spec_scan_def(d: DefNode) -> Seq<OffenseView> {
    spec_check_proc_call_vs_yield(d) + spec_check_getter_vs_attr_reader(d)
        + spec_check_setter_vs_attr_writer(d)
}

pub(crate) proof fn lemma_scan_def_fixable(d: DefNode)
    ensures
        fixes_only_on_fixable_kinds(spec_scan_def(d)),
{
    reveal(spec_scan_def);
    let p1 = spec_check_proc_call_vs_yield(d);
    let p2 = spec_check_getter_vs_attr_reader(d);
    let p3 = spec_check_setter_vs_attr_writer(d);
    assert(fixes_only_on_fixable_kinds(p1));
    assert(fixes_only_on_fixable_kinds(p2));
    assert(fixes_only_on_fixable_kinds(p3));
    lemma_fixable_concat(p1, p2);
    lemma_fixable_concat(p1 + p2, p3);
}

fn is_block_call_of(node: &SyntaxNode, block_name: &str) -> (r: bool)
    ensures
        r == is_block_call(*node, block_name@),
{
    match node {
        SyntaxNode::Call(c) => {
            if !bytes_eq_str(c.name.as_slice(), "call") {
                return false;
            }
            match &c.receiver {
                Some(r) => match &**r {
                    SyntaxNode::LocalVariableRead { name } => {
                        let s = lossy_string(name.as_slice());
                        str_eq(s.as_str(), block_name)
                    },
                    _ => false,
                },
                None => false,
            }
        },
        _ => false,
    }
}

/// Whether `node` or a node below it calls `block_name.call`.
pub fn node_contains_block_call(node: &SyntaxNode, block_name: &str) -> (r: bool)
    ensures
        r == contains_block_call(*node, block_name@),
    decreases *node,
{
    if is_block_call_of(node, block_name) {
        return true;
    }
    let kids = for_each_direct_child(node);
    proof {
        lemma_children_decrease(*node);
    }
    let mut i: usize = 0;
    while i < kids.len()
        invariant
            i <= kids@.len(),
            crate::ast::deref_all(kids@) == children(*node),
            crate::ast_visitor::all_smaller(*node, children(*node)),
            !is_block_call(*node, block_name@),
            forall|j: int| 0 <= j < i ==> !contains_block_call(#[trigger] children(*node)[j], block_name@),
        decreases kids@.len() - i,
    {
        assert(*kids@[i as int] == children(*node)[i as int]);
        if node_contains_block_call(kids[i], block_name) {
            return true;
        }
        i = i + 1;
    }
    false
}

/// Whether a method body, if there is one, calls `block_name.call`.
fn body_contains_block_call(body: &Option<Box<SyntaxNode>>, block_name: &str) -> (r: bool)
    ensures
        r == (match body {
            Some(b) => contains_block_call(**b, block_name@),
            None => false,
        }),
{
    match body {
        Some(b) => node_contains_block_call(&**b, block_name),
        None => false,
    }
}

fn check_proc_call_vs_yield(def: &DefNode, offenses: &mut Vec<Offense>)
    ensures
        offense_views(final(offenses)@) == offense_views(old(offenses)@)
            + spec_check_proc_call_vs_yield(*def),
{
    let block_name = match def_block_arg_name(def) {
        Some(name) => name,
        None => {
            assert(offense_views(offenses@) =~= offense_views(old(offenses)@) + seq![]);
            return ;
        },
    };
    let found_call = body_contains_block_call(&def.body, block_name.as_str());
    if found_call {
        push_offense(offenses, Offense::new(OffenseKind::ProcCallVsYield, def.def_keyword_loc.start));
    } else {
        assert(offense_views(offenses@) =~= offense_views(old(offenses)@) + seq![]);
    }
}

/// Whether `ivar` is `@` followed by the first `n` bytes of `name`.
fn is_ivar_of(ivar: &[u8], name: &[u8], n: usize) -> (r: bool)
    requires
        n <= name@.len(),
    ensures
        r == (ivar@ == seq![64u8] + name@.take(n as int)),
{
    if ivar.len() == 0 || ivar.len() - 1 != n || ivar[0] != 64u8 {
        return false;
    }
    let mut i: usize = 0;
    while i < n
        invariant
            n <= name@.len(),
            ivar@.len() == n + 1,
            ivar@[0] == 64u8,
            i <= n,
            forall|j: int| 0 <= j < i ==> ivar@[j + 1] == name@[j],
        decreases n - i,
    {
        if ivar[i + 1] != name[i] {
            assert((seq![64u8] + name@.take(n as int))[i + 1] == name@[i as int]);
            return false;
        }
        i = i + 1;
    }
    assert(ivar@ =~= seq![64u8] + name@.take(n as int));
    true
}

fn ends_with_equals(name: &[u8]) -> (r: bool)
    ensures
        r == ends_with_eq(name@),
{
    name.len() > 0 && name[name.len() - 1] == 61u8
}

fn def_expression(def: &DefNode) -> (r: Option<&SyntaxNode>)
    ensures
        match r {
            Some(n) => def_single_expression(*def) == Some(*n),
            None => def_single_expression(*def) is None,
        },
{
    let body = match &def.body {
        Some(b) => Some(&**b),
        None => None,
    };
    body_single_expression(body)
}

fn check_getter_vs_attr_reader(def: &DefNode, offenses: &mut Vec<Offense>)
    ensures
        offense_views(final(offenses)@) == offense_views(old(offenses)@)
            + spec_check_getter_vs_attr_reader(*def),
{
    assert(offense_views(old(offenses)@) + seq![] =~= offense_views(old(offenses)@));
    if ends_with_equals(def.name.as_slice()) {
        return ;
    }
    if def_regular_arg_count(def) != 0 {
        return ;
    }
    match def_expression(def) {
        Some(SyntaxNode::InstanceVariableRead { name }) => {
            assert(def.name@.take(def.name@.len() as int) =~= def.name@);
            if is_ivar_of(name.as_slice(), def.name.as_slice(), def.name.len()) {
                push_offense(
                    offenses,
                    Offense::new(OffenseKind::GetterVsAttrReader, def.def_keyword_loc.start),
                );
            }
        },
        _ => {},
    }
}

fn check_setter_vs_attr_writer(def: &DefNode, offenses: &mut Vec<Offense>)
    ensures
        offense_views(final(offenses)@) == offense_views(old(offenses)@)
            + spec_check_setter_vs_attr_writer(*def),
{
    assert(offense_views(old(offenses)@) + seq![] =~= offense_views(old(offenses)@));
    if !ends_with_equals(def.name.as_slice()) {
        return ;
    }
    if def_regular_arg_count(def) != 1 {
        return ;
    }
    let arg_name = match def_first_arg_name(def) {
        Some(name) => name,
        None => {
            return ;
        },
    };
    match def_expression(def) {
        Some(SyntaxNode::InstanceVariableWrite { name, value }) => {
            assert(def.name@.take(def.name@.len() - 1) =~= def.name@.drop_last());
            if !is_ivar_of(name.as_slice(), def.name.as_slice(), def.name.len() - 1) {
                return ;
            }
            match &**value {
                SyntaxNode::LocalVariableRead { name: lv } => {
                    let s = lossy_string(lv.as_slice());
                    if str_eq(s.as_str(), arg_name.as_str()) {
                        push_offense(
                            offenses,
                            Offense::new(OffenseKind::SetterVsAttrWriter, def.def_keyword_loc.start),
                        );
                    }
                },
                _ => {},
            }
        },
        _ => {},
    }
}

/// Scan a method definition for the block-call, getter and setter offenses.
pub fn scan(def: &DefNode) -> (r: Vec<Offense>)
    ensures
        offense_views(r@) == spec_scan_def(*def),
{
    let mut offenses: Vec<Offense> = Vec::new();
    assert(offense_views(offenses@) =~= seq![]);
    check_proc_call_vs_yield(def, &mut offenses);
    check_getter_vs_attr_reader(def, &mut offenses);
    check_setter_vs_attr_writer(def, &mut offenses);
    proof {
        reveal(spec_scan_def);
    }
    assert(offense_views(offenses@) =~= spec_scan_def(*def));
    offenses
}

/// Whether node `x` is `name.call(..)`, with `name` read as a local variable.
pub open spec fn calls_local(x: SyntaxNode, name: Seq<char>) -> bool {
    x matches SyntaxNode::Call(c) && c.name@ == "call".spec_bytes() && (c.receiver matches Some(r)
        && (*r matches SyntaxNode::LocalVariableRead { name: lv } && utf8_lossy(lv@) == name))
}

/// Whether `x` or any node below it, at any depth, is `name.call(..)`.
pub open spec fn calls_local_anywhere(x: SyntaxNode, name: Seq<char>) -> bool {
    calls_local(x, name) || exists|i: int|
        0 <= i < spec_descendants(x).len() && calls_local(#[trigger] spec_descendants(x)[i], name)
}

proof fn lemma_contains_iff_anywhere(n: SyntaxNode, name: Seq<char>)
    ensures
        contains_block_call(n, name) <==> calls_local_anywhere(n, name),
    decreases n, 1int, 0int,
{
    lemma_children_decrease(n);
    lemma_kids_iff(n, children(n).len() as int, name);
    assert(is_block_call(n, name) == calls_local(n, name));
    assert(spec_descendants(n) == descendants_of_kids(n, children(n).len() as int));
}

proof fn lemma_kids_iff(n: SyntaxNode, k: int, name: Seq<char>)
    requires
        0 <= k <= children(n).len(),
    ensures
        (exists|i: int| 0 <= i < k && contains_block_call(#[trigger] children(n)[i], name)) <==> (
        exists|j: int|
            0 <= j < descendants_of_kids(n, k).len() && calls_local(
                #[trigger] descendants_of_kids(n, k)[j],
                name,
            )),
    decreases n, 0int, k,
{
    if k > 0 {
        lemma_children_decrease(n);
        let kid = children(n)[k - 1];
        assert(decreases_to!(n => kid));
        lemma_kids_iff(n, k - 1, name);
        lemma_contains_iff_anywhere(kid, name);
        let pre = descendants_of_kids(n, k - 1);
        let below = spec_descendants(kid);
        let dk = descendants_of_kids(n, k);
        assert(dk == pre + seq![kid] + below);
        if exists|i: int| 0 <= i < k && contains_block_call(#[trigger] children(n)[i], name) {
            let i = choose|i: int| 0 <= i < k && contains_block_call(#[trigger] children(n)[i], name);
            if i < k - 1 {
                let j = choose|j: int| 0 <= j < pre.len() && calls_local(#[trigger] pre[j], name);
                assert(dk[j] == pre[j]);
            } else if calls_local(kid, name) {
                assert(dk[pre.len() as int] == kid);
            } else {
                let m = choose|m: int| 0 <= m < below.len() && calls_local(#[trigger] below[m], name);
                assert(dk[pre.len() + 1 + m] == below[m]);
            }
        }
        if exists|j: int| 0 <= j < dk.len() && calls_local(#[trigger] dk[j], name) {
            let j = choose|j: int| 0 <= j < dk.len() && calls_local(#[trigger] dk[j], name);
            if j < pre.len() {
                assert(dk[j] == pre[j]);
                let i = choose|i: int| 0 <= i < k - 1 && contains_block_call(#[trigger] children(n)[i], name);
            } else if j == pre.len() {
                assert(dk[j] == kid);
                assert(contains_block_call(children(n)[k - 1], name));
            } else {
                assert(dk[j] == below[j - pre.len() - 1]);
                assert(contains_block_call(children(n)[k - 1], name));
            }
        }
    }
}

/// A method with a `&name` block parameter is reported for calling the
/// block with `call` exactly when its body holds `name.call(..)` somewhere,
/// at any depth, inside literal blocks too; the report is one offense at
/// the `def` keyword, without a fix, first among the method's offenses.
/// A method without a named block parameter is never reported so.
pub proof fn lemma_proc_call_found_anywhere(d: DefNode)
    ensures
        (exists|i: int|
            0 <= i < spec_scan_def(d).len() && (#[trigger] spec_scan_def(d)[i]).0
                == OffenseKind::ProcCallVsYield) <==> (spec_def_block_arg_name(d) matches Some(name)
            && (d.body matches Some(b) && calls_local_anywhere(*b, name))),
        (spec_def_block_arg_name(d) matches Some(name) && (d.body matches Some(b)
            && calls_local_anywhere(*b, name))) ==> spec_scan_def(d)[0] == (
            OffenseKind::ProcCallVsYield,
            d.def_keyword_loc.start,
            Option::<Seq<crate::fix::ReplacementView>>::None,
        ),
{
    reveal(spec_scan_def);
    let p1 = spec_check_proc_call_vs_yield(d);
    let p2 = spec_check_getter_vs_attr_reader(d);
    let p3 = spec_check_setter_vs_attr_writer(d);
    let all = p1 + p2 + p3;
    assert(all == spec_scan_def(d));
    match d.body {
        Some(b) => {
            match spec_def_block_arg_name(d) {
                Some(name) => lemma_contains_iff_anywhere(*b, name),
                None => {},
            }
        },
        None => {},
    }
    assert forall|i: int| 0 <= i < all.len() && (#[trigger] all[i]).0 == OffenseKind::ProcCallVsYield
        implies i < p1.len() by {
        if i >= p1.len() && i < p1.len() + p2.len() {
            assert(all[i] == p2[i - p1.len()]);
        } else if i >= p1.len() + p2.len() {
            assert(all[i] == p3[i - p1.len() - p2.len()]);
        }
    }
    if p1.len() > 0 {
        assert(all[0] == p1[0]);
    }
}

proof fn lemma_def_kind_parts(d: DefNode, k: OffenseKind)
    ensures
        ({
            let p1 = spec_check_proc_call_vs_yield(d);
            let p2 = spec_check_getter_vs_attr_reader(d);
            let p3 = spec_check_setter_vs_attr_writer(d);
            (exists|i: int| 0 <= i < spec_scan_def(d).len() && (#[trigger] spec_scan_def(d)[i]).0 == k)
                <==> ((k == OffenseKind::ProcCallVsYield && p1.len() > 0) || (k
                == OffenseKind::GetterVsAttrReader && p2.len() > 0) || (k
                == OffenseKind::SetterVsAttrWriter && p3.len() > 0))
        }),
{
    reveal(spec_scan_def);
    let p1 = spec_check_proc_call_vs_yield(d);
    let p2 = spec_check_getter_vs_attr_reader(d);
    let p3 = spec_check_setter_vs_attr_writer(d);
    let all = p1 + p2 + p3;
    assert(all == spec_scan_def(d));
    if k == OffenseKind::ProcCallVsYield && p1.len() > 0 {
        assert(all[0] == p1[0]);
    }
    if k == OffenseKind::GetterVsAttrReader && p2.len() > 0 {
        assert(all[p1.len() as int] == p2[0]);
    }
    if k == OffenseKind::SetterVsAttrWriter && p3.len() > 0 {
        assert(all[(p1.len() + p2.len()) as int] == p3[0]);
    }
    if exists|i: int| 0 <= i < all.len() && (#[trigger] all[i]).0 == k {
        let i = choose|i: int| 0 <= i < all.len() && (#[trigger] all[i]).0 == k;
        if i < p1.len() {
            assert(all[i] == p1[i]);
        } else if i < p1.len() + p2.len() {
            assert(all[i] == p2[i - p1.len()]);
        } else {
            assert(all[i] == p3[i - p1.len() - p2.len()]);
        }
    }
}

/// A method is reported as a hand-written getter exactly when its name does
/// not end in `=`, it takes no required parameter, and its body is the one
/// expression `@NAME`, reading the instance variable named after it.
pub proof fn lemma_getter_reported_iff(d: DefNode)
    ensures
        (exists|i: int|
            0 <= i < spec_scan_def(d).len() && (#[trigger] spec_scan_def(d)[i]).0
                == OffenseKind::GetterVsAttrReader) <==> ({
            &&& !(d.name@.len() > 0 && d.name@.last() == 61u8)
            &&& spec_def_regular_arg_count(d) == 0
            &&& def_single_expression(d) matches Some(SyntaxNode::InstanceVariableRead { name })
            &&& name@ == seq![64u8] + d.name@
        }),
{
    lemma_def_kind_parts(d, OffenseKind::GetterVsAttrReader);
}

/// A method is reported as a hand-written setter exactly when its name ends
/// in `=`, it takes exactly one required parameter, and its body is the one
/// expression `@NAME = PARAM`, assigning that parameter to the instance
/// variable named after the method (without its `=`).
pub proof fn lemma_setter_reported_iff(d: DefNode)
    ensures
        (exists|i: int|
            0 <= i < spec_scan_def(d).len() && (#[trigger] spec_scan_def(d)[i]).0
                == OffenseKind::SetterVsAttrWriter) <==> ({
            &&& d.name@.len() > 0 && d.name@.last() == 61u8
            &&& spec_def_regular_arg_count(d) == 1
            &&& spec_def_first_arg_name(d) matches Some(arg)
            &&& def_single_expression(d) matches Some(SyntaxNode::InstanceVariableWrite { name, value })
            &&& name@ == seq![64u8] + d.name@.drop_last()
            &&& *value matches SyntaxNode::LocalVariableRead { name: lv }
            &&& utf8_lossy(lv@) == arg
        }),
{
    lemma_def_kind_parts(d, OffenseKind::SetterVsAttrWriter);
}

} // verus!
