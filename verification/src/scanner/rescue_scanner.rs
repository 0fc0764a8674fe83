//! `rescue NoMethodError` → check with `respond_to?` instead.

use vstd::prelude::*;
use vstd::string::StringSliceAdditionalSpecFns;

use crate::ast::{SyntaxNode, RescueNode};
use crate::fix::ReplacementView;
use crate::offense::{offense_views, push_offense, Offense, OffenseKind, OffenseView};
use crate::scanner::method_call_scanner::found;
use crate::text::bytes_eq_str;

verus! {

/// Whether a node is the bare constant `NoMethodError` (a scoped constant
/// such as `Mod::NoMethodError` is not).
pub open spec fn is_no_method_error_const(n: SyntaxNode) -> bool {
    n matches SyntaxNode::ConstantRead { name } && name@ == "NoMethodError".spec_bytes()
}

/// Whether a rescue clause lists `NoMethodError` among its exceptions.
pub open spec fn spec_rescues_no_method_error(r: RescueNode) -> bool {
    exists|i: int| 0 <= i < r.exceptions@.len() && is_no_method_error_const(#[trigger] r.exceptions@[i])
}

/// The offense of a rescue clause, reported at its `rescue` keyword.
#[verifier::opaque]
pub open spec fn spec_scan_rescue(r: RescueNode) -> Seq<OffenseView> {
    if spec_rescues_no_method_error(r) {
        found(OffenseKind::RescueVsRespondTo, r.keyword_loc.start, None)
    } else {
        seq![]
    }
}

fn rescues_no_method_error(rb: &RescueNode) -> (r: bool)
    ensures
        r == spec_rescues_no_method_error(*rb),
{
    let mut i: usize = 0;
    while i < rb.exceptions.len()
        invariant
            i <= rb.exceptions@.len(),
            forall|j: int| 0 <= j < i ==> !is_no_method_error_const(#[trigger] rb.exceptions@[j]),
        decreases rb.exceptions@.len() - i,
    {
        match &rb.exceptions[i] {
            SyntaxNode::ConstantRead { name } => {
                if bytes_eq_str(name.as_slice(), "NoMethodError") {
                    assert(is_no_method_error_const(rb.exceptions@[i as int]));
                    return true;
                }
            },
            _ => {},
        }
        i = i + 1;
    }
    false
}

/// Fires when a rescue clause catches `NoMethodError`.
pub fn scan(node: &RescueNode) -> (r: Vec<Offense>)
    ensures
        offense_views(r@) == spec_scan_rescue(*node),
{
    let mut offenses: Vec<Offense> = Vec::new();
    if rescues_no_method_error(node) {
        push_offense(&mut offenses, Offense::new(OffenseKind::RescueVsRespondTo, node.keyword_loc.start));
    }
    proof {
        reveal(spec_scan_rescue);
    }
    assert(offense_views(offenses@) =~= spec_scan_rescue(*node));
    offenses
}

/// A rescue clause is reported exactly when some exception it lists, at any
/// position, is the bare constant `NoMethodError`: then there is one
/// offense, at the `rescue` keyword and without a fix; otherwise none.
pub proof fn lemma_rescue_reported_iff_no_method_error_listed(r: RescueNode, i: int)
    ensures
        0 <= i < r.exceptions@.len() && (r.exceptions@[i] matches SyntaxNode::ConstantRead { name }
            && name@ == "NoMethodError".spec_bytes()) ==> spec_scan_rescue(r) == seq![
            (OffenseKind::RescueVsRespondTo, r.keyword_loc.start, Option::<Seq<ReplacementView>>::None),
        ],
        (forall|j: int|
            0 <= j < r.exceptions@.len() ==> !(#[trigger] r.exceptions@[j] matches SyntaxNode::ConstantRead {
                name,
            } && name@ == "NoMethodError".spec_bytes())) ==> spec_scan_rescue(r) == Seq::<
            OffenseView,
        >::empty(),
{
    reveal(spec_scan_rescue);
    if 0 <= i < r.exceptions@.len() && (r.exceptions@[i] matches SyntaxNode::ConstantRead { name }
        && name@ == "NoMethodError".spec_bytes()) {
        assert(is_no_method_error_const(r.exceptions@[i]));
    }
    if spec_rescues_no_method_error(r) {
        let j = choose|j: int| 0 <= j < r.exceptions@.len() && is_no_method_error_const(#[trigger] r.exceptions@[j]);
        assert(r.exceptions@[j] matches SyntaxNode::ConstantRead { name } && name@ == "NoMethodError".spec_bytes());
    }
    assert(Seq::<OffenseView>::empty() =~= seq![]);
}

} // verus!
