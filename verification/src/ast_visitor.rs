//! Traversal of syntax trees: the direct children of a node, in order.

use vstd::prelude::*;

use crate::ast::{children, deref_all, opt_node, rescue_children, SyntaxNode, RescueNode};

verus! {

fn push_opt<'a>(out: &mut Vec<&'a SyntaxNode>, o: &'a Option<Box<SyntaxNode>>)
    ensures
        deref_all(final(out)@) == deref_all(old(out)@) + opt_node(*o),
{
    let ghost before = out@;
    match o {
        Some(b) => {
            out.push(&**b);
        },
        None => {},
    }
    assert(deref_all(out@) =~= deref_all(before) + opt_node(*o));
}

fn push_one<'a>(out: &mut Vec<&'a SyntaxNode>, n: &'a SyntaxNode)
    ensures
        deref_all(final(out)@) == deref_all(old(out)@) + seq![*n],
{
    let ghost before = out@;
    out.push(n);
    assert(deref_all(out@) =~= deref_all(before) + seq![*n]);
}

fn push_all<'a>(out: &mut Vec<&'a SyntaxNode>, v: &'a Vec<SyntaxNode>)
    ensures
        deref_all(final(out)@) == deref_all(old(out)@) + v@,
{
    let ghost before = deref_all(out@);
    let mut i: usize = 0;
    while i < v.len()
        invariant
            i <= v.len(),
            deref_all(out@) == before + v@.take(i as int),
        decreases v.len() - i,
    {
        let ghost prev = out@;
        out.push(&v[i]);
        assert(deref_all(out@) =~= deref_all(prev).push(v@[i as int]));
        assert(v@.take(i + 1) =~= v@.take(i as int).push(v@[i as int]));
        i = i + 1;
    }
    assert(v@.take(i as int) =~= v@);
}

fn push_rescue<'a>(out: &mut Vec<&'a SyntaxNode>, r: &'a RescueNode)
    ensures
        deref_all(final(out)@) == deref_all(old(out)@) + rescue_children(*r),
    decreases r,
{
    let ghost before = deref_all(out@);
    push_all(out, &r.exceptions);
    push_opt(out, &r.reference);
    push_all(out, &r.statements);
    match &r.subsequent {
        Some(s) => {
            push_rescue(out, &**s);
        },
        None => {},
    }
    assert(deref_all(out@) =~= before + rescue_children(*r));
}

/// The direct children of `node`, in the order they are visited.
pub fn for_each_direct_child<'a>(node: &'a SyntaxNode) -> (r: Vec<&'a SyntaxNode>)
    ensures
        deref_all(r@) == children(*node),
{
    let mut out: Vec<&'a SyntaxNode> = Vec::new();
    assert(deref_all(out@) =~= Seq::<SyntaxNode>::empty());
    match node {
        SyntaxNode::Program { statements } => {
            push_all(&mut out, statements);
        },
        SyntaxNode::Statements { body } => {
            push_all(&mut out, body);
        },
        SyntaxNode::Call(c) => {
            push_opt(&mut out, &c.receiver);
            push_all(&mut out, &c.arguments);
            push_opt(&mut out, &c.block);
        },
        SyntaxNode::Block(b) => {
            push_opt(&mut out, &b.parameters);
            push_opt(&mut out, &b.body);
        },
        SyntaxNode::BlockArgument { expression } => {
            push_opt(&mut out, expression);
        },
        SyntaxNode::Def(d) => {
            push_opt(&mut out, &d.parameters);
            push_opt(&mut out, &d.body);
        },
        SyntaxNode::For(f) => {
            push_one(&mut out, &*f.index);
            push_one(&mut out, &*f.collection);
            push_all(&mut out, &f.statements);
        },
        SyntaxNode::Begin(b) => {
            push_all(&mut out, &b.statements);
            match &b.rescue_clause {
                Some(r) => {
                    push_rescue(&mut out, r);
                },
                None => {},
            }
            push_all(&mut out, &b.else_statements);
            push_all(&mut out, &b.ensure_statements);
        },
        SyntaxNode::Rescue(r) => {
            push_rescue(&mut out, r);
        },
        SyntaxNode::Ensure { statements } => {
            push_all(&mut out, statements);
        },
        SyntaxNode::Else { statements } => {
            push_all(&mut out, statements);
        },
        SyntaxNode::If { predicate, statements, subsequent } => {
            push_one(&mut out, &**predicate);
            push_all(&mut out, statements);
            push_opt(&mut out, subsequent);
        },
        SyntaxNode::Unless { predicate, statements, else_statements } => {
            push_one(&mut out, &**predicate);
            push_all(&mut out, statements);
            push_all(&mut out, else_statements);
        },
        SyntaxNode::While { predicate, statements } => {
            push_one(&mut out, &**predicate);
            push_all(&mut out, statements);
        },
        SyntaxNode::Until { predicate, statements } => {
            push_one(&mut out, &**predicate);
            push_all(&mut out, statements);
        },
        SyntaxNode::Case { predicate, conditions, else_statements } => {
            push_opt(&mut out, predicate);
            push_all(&mut out, conditions);
            push_all(&mut out, else_statements);
        },
        SyntaxNode::CaseMatch { predicate, conditions, else_statements } => {
            push_opt(&mut out, predicate);
            push_all(&mut out, conditions);
            push_all(&mut out, else_statements);
        },
        SyntaxNode::When { conditions, statements } => {
            push_all(&mut out, conditions);
            push_all(&mut out, statements);
        },
        SyntaxNode::In { pattern, statements } => {
            push_one(&mut out, &**pattern);
            push_all(&mut out, statements);
        },
        SyntaxNode::Class { constant_path, superclass, body } => {
            push_one(&mut out, &**constant_path);
            push_opt(&mut out, superclass);
            push_opt(&mut out, body);
        },
        SyntaxNode::Module { constant_path, body } => {
            push_one(&mut out, &**constant_path);
            push_opt(&mut out, body);
        },
        SyntaxNode::SingletonClass { expression, body } => {
            push_one(&mut out, &**expression);
            push_opt(&mut out, body);
        },
        SyntaxNode::And { left, right } => {
            push_one(&mut out, &**left);
            push_one(&mut out, &**right);
        },
        SyntaxNode::Or { left, right } => {
            push_one(&mut out, &**left);
            push_one(&mut out, &**right);
        },
        SyntaxNode::Array { elements } => {
            push_all(&mut out, elements);
        },
        SyntaxNode::Hash { elements } => {
            push_all(&mut out, elements);
        },
        SyntaxNode::KeywordHash { elements } => {
            push_all(&mut out, elements);
        },
        SyntaxNode::Assoc { key, value } => {
            push_one(&mut out, &**key);
            push_one(&mut out, &**value);
        },
        SyntaxNode::AssocSplat { value } => {
            push_opt(&mut out, value);
        },
        SyntaxNode::Range { left, right } => {
            push_opt(&mut out, left);
            push_opt(&mut out, right);
        },
        SyntaxNode::Parentheses { body } => {
            push_opt(&mut out, body);
        },
        SyntaxNode::InterpolatedString { parts } => {
            push_all(&mut out, parts);
        },
        SyntaxNode::InterpolatedSymbol { parts } => {
            push_all(&mut out, parts);
        },
        SyntaxNode::InterpolatedRegularExpression { parts } => {
            push_all(&mut out, parts);
        },
        SyntaxNode::EmbeddedStatements { statements } => {
            push_all(&mut out, statements);
        },
        SyntaxNode::InstanceVariableWrite { name: _, value } => {
            push_one(&mut out, &**value);
        },
        SyntaxNode::Write { kind: _, value } => {
            push_one(&mut out, &**value);
        },
        SyntaxNode::ConstantPath { parent } => {
            push_opt(&mut out, parent);
        },
        SyntaxNode::MultiWrite { lefts, rest, rights, value } => {
            push_all(&mut out, lefts);
            push_opt(&mut out, rest);
            push_all(&mut out, rights);
            push_one(&mut out, &**value);
        },
        SyntaxNode::Splat { expression } => {
            push_opt(&mut out, expression);
        },
        SyntaxNode::Return { arguments } => {
            push_all(&mut out, arguments);
        },
        SyntaxNode::Yield { arguments } => {
            push_all(&mut out, arguments);
        },
        SyntaxNode::Break { arguments } => {
            push_all(&mut out, arguments);
        },
        SyntaxNode::Next { arguments } => {
            push_all(&mut out, arguments);
        },
        SyntaxNode::Super { arguments, block } => {
            push_all(&mut out, arguments);
            push_opt(&mut out, block);
        },
        SyntaxNode::Lambda { parameters, body } => {
            push_opt(&mut out, parameters);
            push_opt(&mut out, body);
        },
        SyntaxNode::Defined { value } => {
            push_one(&mut out, &**value);
        },
        SyntaxNode::MatchPredicate { value, pattern } => {
            push_one(&mut out, &**value);
            push_one(&mut out, &**pattern);
        },
        SyntaxNode::MatchRequired { value, pattern } => {
            push_one(&mut out, &**value);
            push_one(&mut out, &**pattern);
        },
        SyntaxNode::AliasMethod { new_name, old_name } => {
            push_one(&mut out, &**new_name);
            push_one(&mut out, &**old_name);
        },
        SyntaxNode::AliasGlobalVariable { new_name, old_name } => {
            push_one(&mut out, &**new_name);
            push_one(&mut out, &**old_name);
        },
        SyntaxNode::Undef { names } => {
            push_all(&mut out, names);
        },
        SyntaxNode::IndexWrite { kind: _, receiver, arguments, value } => {
            push_opt(&mut out, receiver);
            push_all(&mut out, arguments);
            push_one(&mut out, &**value);
        },
        _ => {},
    }
    out
}

/// Every node of `s` is structurally smaller than `n`.
pub open spec fn all_smaller(n: SyntaxNode, s: Seq<SyntaxNode>) -> bool {
    forall|i: int| 0 <= i < s.len() ==> decreases_to!(n => #[trigger] s[i])
}

/// The elements of a vector held inside a node are smaller than the node.
pub proof fn lemma_vec_smaller(n: SyntaxNode, v: Vec<SyntaxNode>)
    requires
        decreases_to!(n => v),
    ensures
        all_smaller(n, v@),
{
    assert forall|i: int| 0 <= i < v@.len() implies decreases_to!(n => #[trigger] v@[i]) by {
        assert(decreases_to!(v => v@));
        assert(decreases_to!(v@ => v@[i]));
    }
}

proof fn lemma_opt_smaller(n: SyntaxNode, o: Option<Box<SyntaxNode>>)
    requires
        decreases_to!(n => o),
    ensures
        all_smaller(n, opt_node(o)),
{
    if o is Some {
        let b = o.unwrap();
        assert(decreases_to!(o => b));
    }
}

proof fn lemma_one_smaller(n: SyntaxNode, b: Box<SyntaxNode>)
    requires
        decreases_to!(n => b),
    ensures
        all_smaller(n, seq![*b]),
{
}

proof fn lemma_concat_smaller(n: SyntaxNode, a: Seq<SyntaxNode>, b: Seq<SyntaxNode>)
    requires
        all_smaller(n, a),
        all_smaller(n, b),
    ensures
        all_smaller(n, a + b),
{
    assert forall|i: int| 0 <= i < (a + b).len() implies decreases_to!(n => #[trigger] (a + b)[i]) by {
        if i < a.len() {
            assert((a + b)[i] == a[i]);
        } else {
            assert((a + b)[i] == b[i - a.len()]);
        }
    }
}

/// Every node a rescue clause visits is structurally smaller than the clause.
pub proof fn lemma_rescue_children_decrease(r: RescueNode)
    ensures
        forall|i: int|
            0 <= i < rescue_children(r).len() ==> decreases_to!(r => #[trigger] rescue_children(r)[i]),
    decreases r,
{
    let a = r.exceptions@;
    let b = opt_node(r.reference);
    let c = r.statements@;
    assert forall|i: int| 0 <= i < rescue_children(r).len() implies decreases_to!(
        r => #[trigger] rescue_children(r)[i]
    ) by {
        let rc = rescue_children(r);
        if i < a.len() {
            assert(rc[i] == a[i]);
            assert(decreases_to!(r => r.exceptions));
            assert(decreases_to!(r.exceptions => r.exceptions@));
            assert(decreases_to!(r.exceptions@ => r.exceptions@[i]));
        } else if i < a.len() + b.len() {
            let bx = r.reference.unwrap();
            assert(rc[i] == *bx);
            assert(decreases_to!(r => r.reference));
            assert(decreases_to!(r.reference => bx));
        } else if i < a.len() + b.len() + c.len() {
            assert(rc[i] == c[i - a.len() - b.len()]);
            assert(decreases_to!(r => r.statements));
            assert(decreases_to!(r.statements => r.statements@));
            assert(decreases_to!(r.statements@ => r.statements@[i - a.len() - b.len()]));
        } else {
            let s = r.subsequent.unwrap();
            lemma_rescue_children_decrease(*s);
            let j = i - a.len() - b.len() - c.len();
            assert(rc[i] == rescue_children(*s)[j]);
            assert(decreases_to!(r => r.subsequent));
            assert(decreases_to!(r.subsequent => s));
        }
    }
}

/// Every direct child of a node is structurally smaller than the node.
pub proof fn lemma_children_decrease(n: SyntaxNode)
    ensures
        all_smaller(n, children(n)),
{
    let e = Seq::<SyntaxNode>::empty();
    match n {
        SyntaxNode::Program { statements } => {
            lemma_vec_smaller(n, statements);
        },
        SyntaxNode::Statements { body } => {
            lemma_vec_smaller(n, body);
        },
        SyntaxNode::Call(c) => {
            lemma_opt_smaller(n, c.receiver);
            lemma_vec_smaller(n, c.arguments);
            lemma_opt_smaller(n, c.block);
            lemma_concat_smaller(n, opt_node(c.receiver), c.arguments@);
            lemma_concat_smaller(n, opt_node(c.receiver) + c.arguments@, opt_node(c.block));
        },
        SyntaxNode::Block(b) => {
            lemma_opt_smaller(n, b.parameters);
            lemma_opt_smaller(n, b.body);
            lemma_concat_smaller(n, opt_node(b.parameters), opt_node(b.body));
        },
        SyntaxNode::BlockArgument { expression } => {
            lemma_opt_smaller(n, expression);
        },
        SyntaxNode::Def(d) => {
            lemma_opt_smaller(n, d.parameters);
            lemma_opt_smaller(n, d.body);
            lemma_concat_smaller(n, opt_node(d.parameters), opt_node(d.body));
        },
        SyntaxNode::For(f) => {
            lemma_vec_smaller(n, f.statements);
            assert(all_smaller(n, seq![*f.index, *f.collection]));
            lemma_concat_smaller(n, seq![*f.index, *f.collection], f.statements@);
        },
        SyntaxNode::Begin(b) => {
            lemma_vec_smaller(n, b.statements);
            lemma_vec_smaller(n, b.else_statements);
            lemma_vec_smaller(n, b.ensure_statements);
            let rs = match b.rescue_clause {
                Some(r) => rescue_children(r),
                None => e,
            };
            if b.rescue_clause is Some {
                let r = b.rescue_clause.unwrap();
                lemma_rescue_children_decrease(r);
                assert(decreases_to!(n => b.rescue_clause));
                assert(decreases_to!(b.rescue_clause => r));
            }
            assert(all_smaller(n, rs));
            lemma_concat_smaller(n, b.statements@, rs);
            lemma_concat_smaller(n, b.statements@ + rs, b.else_statements@);
            lemma_concat_smaller(n, b.statements@ + rs + b.else_statements@, b.ensure_statements@);
        },
        SyntaxNode::Rescue(r) => {
            lemma_rescue_children_decrease(r);
        },
        SyntaxNode::Ensure { statements } => {
            lemma_vec_smaller(n, statements);
        },
        SyntaxNode::Else { statements } => {
            lemma_vec_smaller(n, statements);
        },
        SyntaxNode::If { predicate, statements, subsequent } => {
            lemma_one_smaller(n, predicate);
            lemma_vec_smaller(n, statements);
            lemma_opt_smaller(n, subsequent);
            lemma_concat_smaller(n, seq![*predicate], statements@);
            lemma_concat_smaller(n, seq![*predicate] + statements@, opt_node(subsequent));
        },
        SyntaxNode::Unless { predicate, statements, else_statements } => {
            lemma_one_smaller(n, predicate);
            lemma_vec_smaller(n, statements);
            lemma_vec_smaller(n, else_statements);
            lemma_concat_smaller(n, seq![*predicate], statements@);
            lemma_concat_smaller(n, seq![*predicate] + statements@, else_statements@);
        },
        SyntaxNode::While { predicate, statements } => {
            lemma_one_smaller(n, predicate);
            lemma_vec_smaller(n, statements);
            lemma_concat_smaller(n, seq![*predicate], statements@);
        },
        SyntaxNode::Until { predicate, statements } => {
            lemma_one_smaller(n, predicate);
            lemma_vec_smaller(n, statements);
            lemma_concat_smaller(n, seq![*predicate], statements@);
        },
        SyntaxNode::Case { predicate, conditions, else_statements } => {
            lemma_opt_smaller(n, predicate);
            lemma_vec_smaller(n, conditions);
            lemma_vec_smaller(n, else_statements);
            lemma_concat_smaller(n, opt_node(predicate), conditions@);
            lemma_concat_smaller(n, opt_node(predicate) + conditions@, else_statements@);
        },
        SyntaxNode::CaseMatch { predicate, conditions, else_statements } => {
            lemma_opt_smaller(n, predicate);
            lemma_vec_smaller(n, conditions);
            lemma_vec_smaller(n, else_statements);
            lemma_concat_smaller(n, opt_node(predicate), conditions@);
            lemma_concat_smaller(n, opt_node(predicate) + conditions@, else_statements@);
        },
        SyntaxNode::When { conditions, statements } => {
            lemma_vec_smaller(n, conditions);
            lemma_vec_smaller(n, statements);
            lemma_concat_smaller(n, conditions@, statements@);
        },
        SyntaxNode::In { pattern, statements } => {
            lemma_one_smaller(n, pattern);
            lemma_vec_smaller(n, statements);
            lemma_concat_smaller(n, seq![*pattern], statements@);
        },
        SyntaxNode::Class { constant_path, superclass, body } => {
            lemma_one_smaller(n, constant_path);
            lemma_opt_smaller(n, superclass);
            lemma_opt_smaller(n, body);
            lemma_concat_smaller(n, seq![*constant_path], opt_node(superclass));
            lemma_concat_smaller(n, seq![*constant_path] + opt_node(superclass), opt_node(body));
        },
        SyntaxNode::Module { constant_path, body } => {
            lemma_one_smaller(n, constant_path);
            lemma_opt_smaller(n, body);
            lemma_concat_smaller(n, seq![*constant_path], opt_node(body));
        },
        SyntaxNode::SingletonClass { expression, body } => {
            lemma_one_smaller(n, expression);
            lemma_opt_smaller(n, body);
            lemma_concat_smaller(n, seq![*expression], opt_node(body));
        },
        SyntaxNode::And { left, right } => {
            assert(all_smaller(n, seq![*left, *right]));
        },
        SyntaxNode::Or { left, right } => {
            assert(all_smaller(n, seq![*left, *right]));
        },
        SyntaxNode::Array { elements } => {
            lemma_vec_smaller(n, elements);
        },
        SyntaxNode::Hash { elements } => {
            lemma_vec_smaller(n, elements);
        },
        SyntaxNode::KeywordHash { elements } => {
            lemma_vec_smaller(n, elements);
        },
        SyntaxNode::Assoc { key, value } => {
            assert(all_smaller(n, seq![*key, *value]));
        },
        SyntaxNode::AssocSplat { value } => {
            lemma_opt_smaller(n, value);
        },
        SyntaxNode::Range { left, right } => {
            lemma_opt_smaller(n, left);
            lemma_opt_smaller(n, right);
            lemma_concat_smaller(n, opt_node(left), opt_node(right));
        },
        SyntaxNode::Parentheses { body } => {
            lemma_opt_smaller(n, body);
        },
        SyntaxNode::InterpolatedString { parts } => {
            lemma_vec_smaller(n, parts);
        },
        SyntaxNode::InterpolatedSymbol { parts } => {
            lemma_vec_smaller(n, parts);
        },
        SyntaxNode::InterpolatedRegularExpression { parts } => {
            lemma_vec_smaller(n, parts);
        },
        SyntaxNode::EmbeddedStatements { statements } => {
            lemma_vec_smaller(n, statements);
        },
        SyntaxNode::InstanceVariableWrite { name, value } => {
            lemma_one_smaller(n, value);
        },
        SyntaxNode::Write { kind, value } => {
            lemma_one_smaller(n, value);
        },
        SyntaxNode::ConstantPath { parent } => {
            lemma_opt_smaller(n, parent);
        },
        SyntaxNode::MultiWrite { lefts, rest, rights, value } => {
            lemma_vec_smaller(n, lefts);
            lemma_opt_smaller(n, rest);
            lemma_vec_smaller(n, rights);
            lemma_one_smaller(n, value);
            lemma_concat_smaller(n, lefts@, opt_node(rest));
            lemma_concat_smaller(n, lefts@ + opt_node(rest), rights@);
            lemma_concat_smaller(n, lefts@ + opt_node(rest) + rights@, seq![*value]);
        },
        SyntaxNode::Splat { expression } => {
            lemma_opt_smaller(n, expression);
        },
        SyntaxNode::Return { arguments } => {
            lemma_vec_smaller(n, arguments);
        },
        SyntaxNode::Yield { arguments } => {
            lemma_vec_smaller(n, arguments);
        },
        SyntaxNode::Break { arguments } => {
            lemma_vec_smaller(n, arguments);
        },
        SyntaxNode::Next { arguments } => {
            lemma_vec_smaller(n, arguments);
        },
        SyntaxNode::Super { arguments, block } => {
            lemma_vec_smaller(n, arguments);
            lemma_opt_smaller(n, block);
            lemma_concat_smaller(n, arguments@, opt_node(block));
        },
        SyntaxNode::Lambda { parameters, body } => {
            lemma_opt_smaller(n, parameters);
            lemma_opt_smaller(n, body);
            lemma_concat_smaller(n, opt_node(parameters), opt_node(body));
        },
        SyntaxNode::Defined { value } => {
            lemma_one_smaller(n, value);
        },
        SyntaxNode::MatchPredicate { value, pattern } => {
            assert(all_smaller(n, seq![*value, *pattern]));
        },
        SyntaxNode::MatchRequired { value, pattern } => {
            assert(all_smaller(n, seq![*value, *pattern]));
        },
        SyntaxNode::AliasMethod { new_name, old_name } => {
            assert(all_smaller(n, seq![*new_name, *old_name]));
        },
        SyntaxNode::AliasGlobalVariable { new_name, old_name } => {
            assert(all_smaller(n, seq![*new_name, *old_name]));
        },
        SyntaxNode::Undef { names } => {
            lemma_vec_smaller(n, names);
        },
        SyntaxNode::IndexWrite { kind, receiver, arguments, value } => {
            lemma_opt_smaller(n, receiver);
            lemma_vec_smaller(n, arguments);
            lemma_one_smaller(n, value);
            lemma_concat_smaller(n, opt_node(receiver), arguments@);
            lemma_concat_smaller(n, opt_node(receiver) + arguments@, seq![*value]);
        },
        _ => {},
    }
}

/// The elements of a vector of nodes are smaller than the vector.
pub proof fn lemma_vec_elems_smaller(v: Vec<SyntaxNode>)
    ensures
        forall|i: int| 0 <= i < v@.len() ==> decreases_to!(v => #[trigger] v@[i]),
{
    assert forall|i: int| 0 <= i < v@.len() implies decreases_to!(v => #[trigger] v@[i]) by {
        assert(decreases_to!(v => v@));
        assert(decreases_to!(v@ => v@[i]));
    }
}

/// All nodes below `n`, in preorder: each child, then the nodes below it.
pub open spec fn spec_descendants(n: SyntaxNode) -> Seq<SyntaxNode>
    decreases n, 1int, 0int,
{
    descendants_of_kids(n, children(n).len() as int)
}

/// The nodes at and below the first `k` direct children of `n`, in preorder.
pub open spec fn descendants_of_kids(n: SyntaxNode, k: int) -> Seq<SyntaxNode>
    decreases n, 0int, k,
{
    if 0 < k <= children(n).len() {
        proof {
            lemma_children_decrease(n);
        }
        descendants_of_kids(n, k - 1) + seq![children(n)[k - 1]] + spec_descendants(
            children(n)[k - 1],
        )
    } else {
        seq![]
    }
}

/// All nodes below `node`, in the order they are visited: preorder, each
/// child followed by the nodes below it.
pub fn for_each_descendant<'a>(node: &'a SyntaxNode) -> (r: Vec<&'a SyntaxNode>)
    ensures
        deref_all(r@) == spec_descendants(*node),
    decreases *node,
{
    let kids = for_each_direct_child(node);
    proof {
        lemma_children_decrease(*node);
    }
    let mut out: Vec<&'a SyntaxNode> = Vec::new();
    let mut i: usize = 0;
    assert(deref_all(out@) =~= descendants_of_kids(*node, 0));
    while i < kids.len()
        invariant
            i <= kids@.len(),
            deref_all(kids@) == children(*node),
            all_smaller(*node, children(*node)),
            deref_all(out@) == descendants_of_kids(*node, i as int),
        decreases kids@.len() - i,
    {
        let kid = kids[i];
        assert(*kid == children(*node)[i as int]);
        let ghost before = deref_all(out@);
        let ghost prev0 = out@;
        out.push(kid);
        assert(deref_all(out@) =~= deref_all(prev0).push(*kid));
        let below = for_each_descendant(kid);
        let mut j: usize = 0;
        assert(deref_all(out@) =~= before + seq![*kid] + deref_all(below@).take(0));
        while j < below.len()
            invariant
                j <= below@.len(),
                deref_all(out@) == before + seq![*kid] + deref_all(below@).take(j as int),
            decreases below@.len() - j,
        {
            let ghost prev = out@;
            out.push(below[j]);
            assert(deref_all(out@) =~= deref_all(prev).push(*below@[j as int]));
            assert(deref_all(below@).take(j + 1) =~= deref_all(below@).take(j as int).push(
                *below@[j as int],
            ));
            assert(deref_all(out@) =~= before + seq![*kid] + deref_all(below@).take(j + 1));
            j = j + 1;
        }
        assert(deref_all(below@).take(j as int) =~= deref_all(below@));
        i = i + 1;
    }
    out
}

} // verus!
