//! Building the library's syntax tree from the tree that `ruby_prism`
//! parses: one library node per prism node, keeping the names, child
//! nodes and byte ranges that the scanners read. Every function here only
//! converts; what the whole conversion returns is named by `prism_tree`.

use vstd::prelude::*;

use crate::ast::{
    BeginNode, BlockNode, BlockParameterNode, CallNode, DefNode, ForNode, IndexWriteKind, LeafKind,
    Loc, ParametersNode, RescueNode, SyntaxNode, WriteKind,
};

verus! {

#[verifier::external_type_specification]
#[verifier::external_body]
pub struct ExPrismNode<'pr>(ruby_prism::Node<'pr>);

#[verifier::external_type_specification]
#[verifier::external_body]
pub struct ExPrismNodeList<'pr>(ruby_prism::NodeList<'pr>);

#[verifier::external_type_specification]
#[verifier::external_body]
pub struct ExPrismLocation<'pr>(ruby_prism::Location<'pr>);

#[verifier::external_type_specification]
#[verifier::external_body]
pub struct ExPrismStatementsNode<'pr>(ruby_prism::StatementsNode<'pr>);

#[verifier::external_type_specification]
#[verifier::external_body]
pub struct ExPrismArgumentsNode<'pr>(ruby_prism::ArgumentsNode<'pr>);

#[verifier::external_type_specification]
#[verifier::external_body]
pub struct ExPrismElseNode<'pr>(ruby_prism::ElseNode<'pr>);


/// The tree that `ruby_prism::parse` builds of `source`, in the library's form.
pub uninterp spec fn prism_tree(source: Seq<u8>) -> SyntaxNode;

/// Parses `source` with `ruby_prism::parse` and converts the tree it builds
/// into the library's form, node by node. The contract names the result,
/// which depends on the bytes alone; what the parser builds is not stated.
#[verifier::external_body]
pub fn parse_tree(source: &[u8]) -> (r: SyntaxNode)
    ensures
        r == prism_tree(source@),
{
    let result = ruby_prism::parse(source);
    convert(&result.node())
}


/// Convert a prism node, and everything below it, into the library's tree.
#[verifier::external_body]
fn convert(node: &ruby_prism::Node<'_>) -> SyntaxNode {
    match node {
        ruby_prism::Node::ProgramNode { .. } => program_node(node),
        ruby_prism::Node::StatementsNode { .. } => statements_node(node),
        ruby_prism::Node::CallNode { .. } => call_node(node),
        ruby_prism::Node::BlockNode { .. } => block_node(node),
        ruby_prism::Node::BlockArgumentNode { .. } => block_argument_node(node),
        ruby_prism::Node::BlockParametersNode { .. } => block_parameters_node(node),
        ruby_prism::Node::ParametersNode { .. } => parameters_node(node),
        ruby_prism::Node::RequiredParameterNode { .. } => required_parameter_node(node),
        ruby_prism::Node::DefNode { .. } => def_node(node),
        _ => convert_2(node),
    }
}

#[verifier::external_body]
fn convert_2(node: &ruby_prism::Node<'_>) -> SyntaxNode {
    match node {
        ruby_prism::Node::ForNode { .. } => for_node(node),
        ruby_prism::Node::BeginNode { .. } => begin_node(node),
        ruby_prism::Node::RescueNode { .. } => rescue_node(node),
        ruby_prism::Node::EnsureNode { .. } => ensure_node(node),
        ruby_prism::Node::ElseNode { .. } => else_node(node),
        ruby_prism::Node::IfNode { .. } => if_node(node),
        ruby_prism::Node::UnlessNode { .. } => unless_node(node),
        ruby_prism::Node::WhileNode { .. } => while_node(node),
        ruby_prism::Node::UntilNode { .. } => until_node(node),
        _ => convert_3(node),
    }
}

#[verifier::external_body]
fn convert_3(node: &ruby_prism::Node<'_>) -> SyntaxNode {
    match node {
        ruby_prism::Node::CaseNode { .. } => case_node(node),
        ruby_prism::Node::CaseMatchNode { .. } => case_match_node(node),
        ruby_prism::Node::WhenNode { .. } => when_node(node),
        ruby_prism::Node::InNode { .. } => in_node(node),
        ruby_prism::Node::ClassNode { .. } => class_node(node),
        ruby_prism::Node::ModuleNode { .. } => module_node(node),
        ruby_prism::Node::SingletonClassNode { .. } => singleton_class_node(node),
        ruby_prism::Node::AndNode { .. } => and_node(node),
        ruby_prism::Node::OrNode { .. } => or_node(node),
        _ => convert_4(node),
    }
}

#[verifier::external_body]
fn convert_4(node: &ruby_prism::Node<'_>) -> SyntaxNode {
    match node {
        ruby_prism::Node::ArrayNode { .. } => array_node(node),
        ruby_prism::Node::HashNode { .. } => hash_node(node),
        ruby_prism::Node::KeywordHashNode { .. } => keyword_hash_node(node),
        ruby_prism::Node::AssocNode { .. } => assoc_node(node),
        ruby_prism::Node::AssocSplatNode { .. } => assoc_splat_node(node),
        ruby_prism::Node::RangeNode { .. } => range_node(node),
        ruby_prism::Node::ParenthesesNode { .. } => parentheses_node(node),
        ruby_prism::Node::InterpolatedStringNode { .. } => interpolated_string_node(node),
        ruby_prism::Node::InterpolatedSymbolNode { .. } => interpolated_symbol_node(node),
        _ => convert_5(node),
    }
}

#[verifier::external_body]
fn convert_5(node: &ruby_prism::Node<'_>) -> SyntaxNode {
    match node {
        ruby_prism::Node::InterpolatedRegularExpressionNode { .. } => interpolated_regexp_node(node),
        ruby_prism::Node::EmbeddedStatementsNode { .. } => embedded_statements_node(node),
        ruby_prism::Node::InstanceVariableWriteNode { .. } => ivar_write_node(node),
        ruby_prism::Node::LocalVariableWriteNode { .. } => w_local_variable_write_node(node),
        ruby_prism::Node::ClassVariableWriteNode { .. } => w_class_variable_write_node(node),
        ruby_prism::Node::GlobalVariableWriteNode { .. } => w_global_variable_write_node(node),
        ruby_prism::Node::ConstantWriteNode { .. } => w_constant_write_node(node),
        ruby_prism::Node::ConstantPathWriteNode { .. } => w_constant_path_write_node(node),
        ruby_prism::Node::LocalVariableOperatorWriteNode { .. } => w_local_variable_operator_write_node(node),
        _ => convert_6(node),
    }
}

#[verifier::external_body]
fn convert_6(node: &ruby_prism::Node<'_>) -> SyntaxNode {
    match node {
        ruby_prism::Node::LocalVariableAndWriteNode { .. } => w_local_variable_and_write_node(node),
        ruby_prism::Node::LocalVariableOrWriteNode { .. } => w_local_variable_or_write_node(node),
        ruby_prism::Node::InstanceVariableOperatorWriteNode { .. } => w_instance_variable_operator_write_node(node),
        ruby_prism::Node::InstanceVariableAndWriteNode { .. } => w_instance_variable_and_write_node(node),
        ruby_prism::Node::InstanceVariableOrWriteNode { .. } => w_instance_variable_or_write_node(node),
        ruby_prism::Node::ConstantOperatorWriteNode { .. } => w_constant_operator_write_node(node),
        ruby_prism::Node::ConstantAndWriteNode { .. } => w_constant_and_write_node(node),
        ruby_prism::Node::ConstantOrWriteNode { .. } => w_constant_or_write_node(node),
        ruby_prism::Node::ConstantPathOperatorWriteNode { .. } => w_constant_path_operator_write_node(node),
        _ => convert_7(node),
    }
}

#[verifier::external_body]
fn convert_7(node: &ruby_prism::Node<'_>) -> SyntaxNode {
    match node {
        ruby_prism::Node::ConstantPathAndWriteNode { .. } => w_constant_path_and_write_node(node),
        ruby_prism::Node::ConstantPathOrWriteNode { .. } => w_constant_path_or_write_node(node),
        ruby_prism::Node::ClassVariableOperatorWriteNode { .. } => w_class_variable_operator_write_node(node),
        ruby_prism::Node::ClassVariableAndWriteNode { .. } => w_class_variable_and_write_node(node),
        ruby_prism::Node::ClassVariableOrWriteNode { .. } => w_class_variable_or_write_node(node),
        ruby_prism::Node::GlobalVariableOperatorWriteNode { .. } => w_global_variable_operator_write_node(node),
        ruby_prism::Node::GlobalVariableAndWriteNode { .. } => w_global_variable_and_write_node(node),
        ruby_prism::Node::GlobalVariableOrWriteNode { .. } => w_global_variable_or_write_node(node),
        ruby_prism::Node::ConstantPathNode { .. } => constant_path_node(node),
        _ => convert_8(node),
    }
}

#[verifier::external_body]
fn convert_8(node: &ruby_prism::Node<'_>) -> SyntaxNode {
    match node {
        ruby_prism::Node::MultiWriteNode { .. } => multi_write_node(node),
        ruby_prism::Node::SplatNode { .. } => splat_node(node),
        ruby_prism::Node::ReturnNode { .. } => return_node(node),
        ruby_prism::Node::YieldNode { .. } => yield_node(node),
        ruby_prism::Node::BreakNode { .. } => break_node(node),
        ruby_prism::Node::NextNode { .. } => next_node(node),
        ruby_prism::Node::SuperNode { .. } => super_node(node),
        ruby_prism::Node::LambdaNode { .. } => lambda_node(node),
        ruby_prism::Node::DefinedNode { .. } => defined_node(node),
        _ => convert_9(node),
    }
}

#[verifier::external_body]
fn convert_9(node: &ruby_prism::Node<'_>) -> SyntaxNode {
    match node {
        ruby_prism::Node::MatchPredicateNode { .. } => match_predicate_node(node),
        ruby_prism::Node::MatchRequiredNode { .. } => match_required_node(node),
        ruby_prism::Node::AliasMethodNode { .. } => alias_method_node(node),
        ruby_prism::Node::AliasGlobalVariableNode { .. } => alias_global_node(node),
        ruby_prism::Node::UndefNode { .. } => undef_node(node),
        ruby_prism::Node::IndexOperatorWriteNode { .. } => index_operator_write_node(node),
        ruby_prism::Node::IndexAndWriteNode { .. } => index_and_write_node(node),
        ruby_prism::Node::IndexOrWriteNode { .. } => index_or_write_node(node),
        ruby_prism::Node::StringNode { .. } => string_node(node),
        _ => convert_10(node),
    }
}

#[verifier::external_body]
fn convert_10(node: &ruby_prism::Node<'_>) -> SyntaxNode {
    match node {
        ruby_prism::Node::ConstantReadNode { .. } => constant_read_node(node),
        ruby_prism::Node::LocalVariableReadNode { .. } => lvar_read_node(node),
        ruby_prism::Node::InstanceVariableReadNode { .. } => ivar_read_node(node),
        ruby_prism::Node::IntegerNode { .. } => SyntaxNode::Integer { text: node.location().as_slice().to_vec() },
        ruby_prism::Node::FloatNode { .. } => SyntaxNode::Leaf(LeafKind::Float),
        ruby_prism::Node::SymbolNode { .. } => SyntaxNode::Leaf(LeafKind::Symbol),
        ruby_prism::Node::TrueNode { .. } => SyntaxNode::Leaf(LeafKind::True),
        ruby_prism::Node::FalseNode { .. } => SyntaxNode::Leaf(LeafKind::False),
        ruby_prism::Node::NilNode { .. } => SyntaxNode::Leaf(LeafKind::Nil),
        _ => convert_11(node),
    }
}

#[verifier::external_body]
fn convert_11(node: &ruby_prism::Node<'_>) -> SyntaxNode {
    match node {
        ruby_prism::Node::RationalNode { .. } => SyntaxNode::Leaf(LeafKind::Rational),
        ruby_prism::Node::ImaginaryNode { .. } => SyntaxNode::Leaf(LeafKind::Imaginary),
        _ => SyntaxNode::Leaf(LeafKind::Other),
    }
}

#[verifier::external_body]
fn loc_of(l: &ruby_prism::Location<'_>) -> Loc {
    Loc { start: l.start() as usize, end: l.end() as usize }
}

#[verifier::external_body]
fn opt_loc(l: Option<ruby_prism::Location<'_>>) -> Option<Loc> {
    l.map(|l| loc_of(&l))
}

#[verifier::external_body]
fn boxed(n: ruby_prism::Node<'_>) -> Box<SyntaxNode> {
    Box::new(convert(&n))
}

#[verifier::external_body]
fn opt_boxed(n: Option<ruby_prism::Node<'_>>) -> Option<Box<SyntaxNode>> {
    n.map(boxed)
}

#[verifier::external_body]
fn node_list(l: ruby_prism::NodeList<'_>) -> Vec<SyntaxNode> {
    l.iter().map(|n| convert(&n)).collect()
}

#[verifier::external_body]
fn statements_of(s: Option<ruby_prism::StatementsNode<'_>>) -> Vec<SyntaxNode> {
    match s {
        Some(s) => node_list(s.body()),
        None => Vec::new(),
    }
}

#[verifier::external_body]
fn arguments_of(a: Option<ruby_prism::ArgumentsNode<'_>>) -> Vec<SyntaxNode> {
    match a {
        Some(a) => node_list(a.arguments()),
        None => Vec::new(),
    }
}

#[verifier::external_body]
fn else_statements(e: Option<ruby_prism::ElseNode<'_>>) -> Vec<SyntaxNode> {
    match e {
        Some(e) => statements_of(e.statements()),
        None => Vec::new(),
    }
}

#[verifier::external_body]
fn parameters_of(p: &ruby_prism::Node<'_>) -> ParametersNode {
    let p = p.as_parameters_node().unwrap();
    let block = match p.block() {
        Some(b) => b
            .as_block_parameter_node()
            .map(|bp| BlockParameterNode { name: bp.name().map(|n| n.as_slice().to_vec()) }),
        None => None,
    };
    ParametersNode { requireds: node_list(p.requireds()), block }
}

#[verifier::external_body]
fn rescue_of(r: &ruby_prism::Node<'_>) -> RescueNode {
    let r = r.as_rescue_node().unwrap();
    RescueNode {
        exceptions: node_list(r.exceptions()),
        reference: opt_boxed(r.reference()),
        statements: statements_of(r.statements()),
        subsequent: r.subsequent().map(|s| Box::new(rescue_of(&s.as_node()))),
        keyword_loc: loc_of(&r.keyword_loc()),
    }
}

#[verifier::external_body]
fn write_node(kind: WriteKind, value: ruby_prism::Node<'_>) -> SyntaxNode {
    SyntaxNode::Write { kind, value: boxed(value) }
}

#[verifier::external_body]
fn index_write(kind: IndexWriteKind, receiver: Option<ruby_prism::Node<'_>>, arguments: Option<ruby_prism::ArgumentsNode<'_>>, value: ruby_prism::Node<'_>) -> SyntaxNode {
    SyntaxNode::IndexWrite {
        kind,
        receiver: opt_boxed(receiver),
        arguments: arguments_of(arguments),
        value: boxed(value),
    }
}

#[verifier::external_body]
fn call_node(node: &ruby_prism::Node<'_>) -> SyntaxNode {
    let n = node.as_call_node().unwrap();
    SyntaxNode::Call(CallNode {
        name: n.name().as_slice().to_vec(),
        receiver: opt_boxed(n.receiver()),
        arguments: arguments_of(n.arguments()),
        block: opt_boxed(n.block()),
        call_operator_loc: opt_loc(n.call_operator_loc()),
        message_loc: opt_loc(n.message_loc()),
        location: loc_of(&n.location()),
    })
}

#[verifier::external_body]
fn block_node(node: &ruby_prism::Node<'_>) -> SyntaxNode {
    let n = node.as_block_node().unwrap();
    SyntaxNode::Block(BlockNode { parameters: opt_boxed(n.parameters()), body: opt_boxed(n.body()) })
}

#[verifier::external_body]
fn def_node(node: &ruby_prism::Node<'_>) -> SyntaxNode {
    let n = node.as_def_node().unwrap();
    SyntaxNode::Def(DefNode {
        name: n.name().as_slice().to_vec(),
        parameters: n.parameters().map(|p| Box::new(SyntaxNode::Parameters(parameters_of(&p.as_node())))),
        body: opt_boxed(n.body()),
        def_keyword_loc: loc_of(&n.def_keyword_loc()),
    })
}

#[verifier::external_body]
fn for_node(node: &ruby_prism::Node<'_>) -> SyntaxNode {
    let n = node.as_for_node().unwrap();
    SyntaxNode::For(ForNode {
        index: boxed(n.index()),
        collection: boxed(n.collection()),
        statements: statements_of(n.statements()),
        for_keyword_loc: loc_of(&n.for_keyword_loc()),
        in_keyword_loc: loc_of(&n.in_keyword_loc()),
        do_keyword_loc: opt_loc(n.do_keyword_loc()),
    })
}

#[verifier::external_body]
fn begin_node(node: &ruby_prism::Node<'_>) -> SyntaxNode {
    let n = node.as_begin_node().unwrap();
    SyntaxNode::Begin(BeginNode {
        statements: statements_of(n.statements()),
        rescue_clause: n.rescue_clause().map(|r| rescue_of(&r.as_node())),
        else_statements: else_statements(n.else_clause()),
        ensure_statements: statements_of(n.ensure_clause().and_then(|e| e.statements())),
    })
}

#[verifier::external_body]
fn if_node(node: &ruby_prism::Node<'_>) -> SyntaxNode {
    let n = node.as_if_node().unwrap();
    SyntaxNode::If {
        predicate: boxed(n.predicate()),
        statements: statements_of(n.statements()),
        subsequent: opt_boxed(n.subsequent()),
    }
}

#[verifier::external_body]
fn unless_node(node: &ruby_prism::Node<'_>) -> SyntaxNode {
    let n = node.as_unless_node().unwrap();
    SyntaxNode::Unless {
        predicate: boxed(n.predicate()),
        statements: statements_of(n.statements()),
        else_statements: else_statements(n.else_clause()),
    }
}

#[verifier::external_body]
fn while_node(node: &ruby_prism::Node<'_>) -> SyntaxNode {
    let n = node.as_while_node().unwrap();
    SyntaxNode::While { predicate: boxed(n.predicate()), statements: statements_of(n.statements()) }
}

#[verifier::external_body]
fn until_node(node: &ruby_prism::Node<'_>) -> SyntaxNode {
    let n = node.as_until_node().unwrap();
    SyntaxNode::Until { predicate: boxed(n.predicate()), statements: statements_of(n.statements()) }
}

#[verifier::external_body]
fn case_node(node: &ruby_prism::Node<'_>) -> SyntaxNode {
    let n = node.as_case_node().unwrap();
    SyntaxNode::Case {
        predicate: opt_boxed(n.predicate()),
        conditions: node_list(n.conditions()),
        else_statements: else_statements(n.else_clause()),
    }
}

#[verifier::external_body]
fn case_match_node(node: &ruby_prism::Node<'_>) -> SyntaxNode {
    let n = node.as_case_match_node().unwrap();
    SyntaxNode::CaseMatch {
        predicate: opt_boxed(n.predicate()),
        conditions: node_list(n.conditions()),
        else_statements: else_statements(n.else_clause()),
    }
}

#[verifier::external_body]
fn when_node(node: &ruby_prism::Node<'_>) -> SyntaxNode {
    let n = node.as_when_node().unwrap();
    SyntaxNode::When { conditions: node_list(n.conditions()), statements: statements_of(n.statements()) }
}

#[verifier::external_body]
fn in_node(node: &ruby_prism::Node<'_>) -> SyntaxNode {
    let n = node.as_in_node().unwrap();
    SyntaxNode::In { pattern: boxed(n.pattern()), statements: statements_of(n.statements()) }
}

#[verifier::external_body]
fn class_node(node: &ruby_prism::Node<'_>) -> SyntaxNode {
    let n = node.as_class_node().unwrap();
    SyntaxNode::Class {
        constant_path: boxed(n.constant_path()),
        superclass: opt_boxed(n.superclass()),
        body: opt_boxed(n.body()),
    }
}

#[verifier::external_body]
fn module_node(node: &ruby_prism::Node<'_>) -> SyntaxNode {
    let n = node.as_module_node().unwrap();
    SyntaxNode::Module { constant_path: boxed(n.constant_path()), body: opt_boxed(n.body()) }
}

#[verifier::external_body]
fn singleton_class_node(node: &ruby_prism::Node<'_>) -> SyntaxNode {
    let n = node.as_singleton_class_node().unwrap();
    SyntaxNode::SingletonClass { expression: boxed(n.expression()), body: opt_boxed(n.body()) }
}

#[verifier::external_body]
fn and_node(node: &ruby_prism::Node<'_>) -> SyntaxNode {
    let n = node.as_and_node().unwrap();
    SyntaxNode::And { left: boxed(n.left()), right: boxed(n.right()) }
}

#[verifier::external_body]
fn or_node(node: &ruby_prism::Node<'_>) -> SyntaxNode {
    let n = node.as_or_node().unwrap();
    SyntaxNode::Or { left: boxed(n.left()), right: boxed(n.right()) }
}

#[verifier::external_body]
fn assoc_node(node: &ruby_prism::Node<'_>) -> SyntaxNode {
    let n = node.as_assoc_node().unwrap();
    SyntaxNode::Assoc { key: boxed(n.key()), value: boxed(n.value()) }
}

#[verifier::external_body]
fn range_node(node: &ruby_prism::Node<'_>) -> SyntaxNode {
    let n = node.as_range_node().unwrap();
    SyntaxNode::Range { left: opt_boxed(n.left()), right: opt_boxed(n.right()) }
}

#[verifier::external_body]
fn ivar_write_node(node: &ruby_prism::Node<'_>) -> SyntaxNode {
    let n = node.as_instance_variable_write_node().unwrap();
    SyntaxNode::InstanceVariableWrite { name: n.name().as_slice().to_vec(), value: boxed(n.value()) }
}

#[verifier::external_body]
fn multi_write_node(node: &ruby_prism::Node<'_>) -> SyntaxNode {
    let n = node.as_multi_write_node().unwrap();
    SyntaxNode::MultiWrite {
        lefts: node_list(n.lefts()),
        rest: opt_boxed(n.rest()),
        rights: node_list(n.rights()),
        value: boxed(n.value()),
    }
}

#[verifier::external_body]
fn super_node(node: &ruby_prism::Node<'_>) -> SyntaxNode {
    let n = node.as_super_node().unwrap();
    SyntaxNode::Super { arguments: arguments_of(n.arguments()), block: opt_boxed(n.block()) }
}

#[verifier::external_body]
fn lambda_node(node: &ruby_prism::Node<'_>) -> SyntaxNode {
    let n = node.as_lambda_node().unwrap();
    SyntaxNode::Lambda { parameters: opt_boxed(n.parameters()), body: opt_boxed(n.body()) }
}

#[verifier::external_body]
fn match_predicate_node(node: &ruby_prism::Node<'_>) -> SyntaxNode {
    let n = node.as_match_predicate_node().unwrap();
    SyntaxNode::MatchPredicate { value: boxed(n.value()), pattern: boxed(n.pattern()) }
}

#[verifier::external_body]
fn match_required_node(node: &ruby_prism::Node<'_>) -> SyntaxNode {
    let n = node.as_match_required_node().unwrap();
    SyntaxNode::MatchRequired { value: boxed(n.value()), pattern: boxed(n.pattern()) }
}

#[verifier::external_body]
fn alias_method_node(node: &ruby_prism::Node<'_>) -> SyntaxNode {
    let n = node.as_alias_method_node().unwrap();
    SyntaxNode::AliasMethod { new_name: boxed(n.new_name()), old_name: boxed(n.old_name()) }
}

#[verifier::external_body]
fn alias_global_node(node: &ruby_prism::Node<'_>) -> SyntaxNode {
    let n = node.as_alias_global_variable_node().unwrap();
    SyntaxNode::AliasGlobalVariable { new_name: boxed(n.new_name()), old_name: boxed(n.old_name()) }
}

#[verifier::external_body]
fn index_operator_write_node(node: &ruby_prism::Node<'_>) -> SyntaxNode {
    let n = node.as_index_operator_write_node().unwrap();
    index_write(IndexWriteKind::Operator, n.receiver(), n.arguments(), n.value())
}

#[verifier::external_body]
fn index_and_write_node(node: &ruby_prism::Node<'_>) -> SyntaxNode {
    let n = node.as_index_and_write_node().unwrap();
    index_write(IndexWriteKind::And, n.receiver(), n.arguments(), n.value())
}

#[verifier::external_body]
fn index_or_write_node(node: &ruby_prism::Node<'_>) -> SyntaxNode {
    let n = node.as_index_or_write_node().unwrap();
    index_write(IndexWriteKind::Or, n.receiver(), n.arguments(), n.value())
}

#[verifier::external_body]
fn program_node(node: &ruby_prism::Node<'_>) -> SyntaxNode {
    let n = node.as_program_node().unwrap();
    SyntaxNode::Program { statements: node_list(n.statements().body()) }
}

#[verifier::external_body]
fn statements_node(node: &ruby_prism::Node<'_>) -> SyntaxNode {
    let n = node.as_statements_node().unwrap();
    SyntaxNode::Statements { body: node_list(n.body()) }
}

#[verifier::external_body]
fn block_argument_node(node: &ruby_prism::Node<'_>) -> SyntaxNode {
    let n = node.as_block_argument_node().unwrap();
    SyntaxNode::BlockArgument { expression: opt_boxed(n.expression()) }
}

#[verifier::external_body]
fn block_parameters_node(node: &ruby_prism::Node<'_>) -> SyntaxNode {
    let n = node.as_block_parameters_node().unwrap();
    SyntaxNode::BlockParameters { parameters: n.parameters().map(|p| parameters_of(&p.as_node())) }
}

#[verifier::external_body]
fn parameters_node(node: &ruby_prism::Node<'_>) -> SyntaxNode {
    SyntaxNode::Parameters(parameters_of(node))
}

#[verifier::external_body]
fn required_parameter_node(node: &ruby_prism::Node<'_>) -> SyntaxNode {
    let n = node.as_required_parameter_node().unwrap();
    SyntaxNode::RequiredParameter { name: n.name().as_slice().to_vec() }
}

#[verifier::external_body]
fn rescue_node(node: &ruby_prism::Node<'_>) -> SyntaxNode {
    SyntaxNode::Rescue(rescue_of(node))
}

#[verifier::external_body]
fn ensure_node(node: &ruby_prism::Node<'_>) -> SyntaxNode {
    let n = node.as_ensure_node().unwrap();
    SyntaxNode::Ensure { statements: statements_of(n.statements()) }
}

#[verifier::external_body]
fn else_node(node: &ruby_prism::Node<'_>) -> SyntaxNode {
    let n = node.as_else_node().unwrap();
    SyntaxNode::Else { statements: statements_of(n.statements()) }
}

#[verifier::external_body]
fn array_node(node: &ruby_prism::Node<'_>) -> SyntaxNode {
    let n = node.as_array_node().unwrap();
    SyntaxNode::Array { elements: node_list(n.elements()) }
}

#[verifier::external_body]
fn hash_node(node: &ruby_prism::Node<'_>) -> SyntaxNode {
    let n = node.as_hash_node().unwrap();
    SyntaxNode::Hash { elements: node_list(n.elements()) }
}

#[verifier::external_body]
fn keyword_hash_node(node: &ruby_prism::Node<'_>) -> SyntaxNode {
    let n = node.as_keyword_hash_node().unwrap();
    SyntaxNode::KeywordHash { elements: node_list(n.elements()) }
}

#[verifier::external_body]
fn assoc_splat_node(node: &ruby_prism::Node<'_>) -> SyntaxNode {
    let n = node.as_assoc_splat_node().unwrap();
    SyntaxNode::AssocSplat { value: opt_boxed(n.value()) }
}

#[verifier::external_body]
fn parentheses_node(node: &ruby_prism::Node<'_>) -> SyntaxNode {
    let n = node.as_parentheses_node().unwrap();
    SyntaxNode::Parentheses { body: opt_boxed(n.body()) }
}

#[verifier::external_body]
fn interpolated_string_node(node: &ruby_prism::Node<'_>) -> SyntaxNode {
    let n = node.as_interpolated_string_node().unwrap();
    SyntaxNode::InterpolatedString { parts: node_list(n.parts()) }
}

#[verifier::external_body]
fn interpolated_symbol_node(node: &ruby_prism::Node<'_>) -> SyntaxNode {
    let n = node.as_interpolated_symbol_node().unwrap();
    SyntaxNode::InterpolatedSymbol { parts: node_list(n.parts()) }
}

#[verifier::external_body]
fn interpolated_regexp_node(node: &ruby_prism::Node<'_>) -> SyntaxNode {
    let n = node.as_interpolated_regular_expression_node().unwrap();
    SyntaxNode::InterpolatedRegularExpression { parts: node_list(n.parts()) }
}

#[verifier::external_body]
fn embedded_statements_node(node: &ruby_prism::Node<'_>) -> SyntaxNode {
    let n = node.as_embedded_statements_node().unwrap();
    SyntaxNode::EmbeddedStatements { statements: statements_of(n.statements()) }
}

#[verifier::external_body]
fn constant_path_node(node: &ruby_prism::Node<'_>) -> SyntaxNode {
    let n = node.as_constant_path_node().unwrap();
    SyntaxNode::ConstantPath { parent: opt_boxed(n.parent()) }
}

#[verifier::external_body]
fn splat_node(node: &ruby_prism::Node<'_>) -> SyntaxNode {
    let n = node.as_splat_node().unwrap();
    SyntaxNode::Splat { expression: opt_boxed(n.expression()) }
}

#[verifier::external_body]
fn return_node(node: &ruby_prism::Node<'_>) -> SyntaxNode {
    let n = node.as_return_node().unwrap();
    SyntaxNode::Return { arguments: arguments_of(n.arguments()) }
}

#[verifier::external_body]
fn yield_node(node: &ruby_prism::Node<'_>) -> SyntaxNode {
    let n = node.as_yield_node().unwrap();
    SyntaxNode::Yield { arguments: arguments_of(n.arguments()) }
}

#[verifier::external_body]
fn break_node(node: &ruby_prism::Node<'_>) -> SyntaxNode {
    let n = node.as_break_node().unwrap();
    SyntaxNode::Break { arguments: arguments_of(n.arguments()) }
}

#[verifier::external_body]
fn next_node(node: &ruby_prism::Node<'_>) -> SyntaxNode {
    let n = node.as_next_node().unwrap();
    SyntaxNode::Next { arguments: arguments_of(n.arguments()) }
}

#[verifier::external_body]
fn defined_node(node: &ruby_prism::Node<'_>) -> SyntaxNode {
    let n = node.as_defined_node().unwrap();
    SyntaxNode::Defined { value: boxed(n.value()) }
}

#[verifier::external_body]
fn undef_node(node: &ruby_prism::Node<'_>) -> SyntaxNode {
    let n = node.as_undef_node().unwrap();
    SyntaxNode::Undef { names: node_list(n.names()) }
}

#[verifier::external_body]
fn string_node(node: &ruby_prism::Node<'_>) -> SyntaxNode {
    let n = node.as_string_node().unwrap();
    SyntaxNode::String { unescaped: n.unescaped().to_vec() }
}

#[verifier::external_body]
fn constant_read_node(node: &ruby_prism::Node<'_>) -> SyntaxNode {
    let n = node.as_constant_read_node().unwrap();
    SyntaxNode::ConstantRead { name: n.name().as_slice().to_vec() }
}

#[verifier::external_body]
fn lvar_read_node(node: &ruby_prism::Node<'_>) -> SyntaxNode {
    let n = node.as_local_variable_read_node().unwrap();
    SyntaxNode::LocalVariableRead { name: n.name().as_slice().to_vec() }
}

#[verifier::external_body]
fn ivar_read_node(node: &ruby_prism::Node<'_>) -> SyntaxNode {
    let n = node.as_instance_variable_read_node().unwrap();
    SyntaxNode::InstanceVariableRead { name: n.name().as_slice().to_vec() }
}

#[verifier::external_body]
fn w_local_variable_write_node(node: &ruby_prism::Node<'_>) -> SyntaxNode {
    let n = node.as_local_variable_write_node().unwrap();
    write_node(WriteKind::LocalVariable, n.value())
}

#[verifier::external_body]
fn w_class_variable_write_node(node: &ruby_prism::Node<'_>) -> SyntaxNode {
    let n = node.as_class_variable_write_node().unwrap();
    write_node(WriteKind::ClassVariable, n.value())
}

#[verifier::external_body]
fn w_global_variable_write_node(node: &ruby_prism::Node<'_>) -> SyntaxNode {
    let n = node.as_global_variable_write_node().unwrap();
    write_node(WriteKind::GlobalVariable, n.value())
}

#[verifier::external_body]
fn w_constant_write_node(node: &ruby_prism::Node<'_>) -> SyntaxNode {
    let n = node.as_constant_write_node().unwrap();
    write_node(WriteKind::Constant, n.value())
}

#[verifier::external_body]
fn w_constant_path_write_node(node: &ruby_prism::Node<'_>) -> SyntaxNode {
    let n = node.as_constant_path_write_node().unwrap();
    write_node(WriteKind::ConstantPath, n.value())
}

#[verifier::external_body]
fn w_local_variable_operator_write_node(node: &ruby_prism::Node<'_>) -> SyntaxNode {
    let n = node.as_local_variable_operator_write_node().unwrap();
    write_node(WriteKind::LocalVariableOperator, n.value())
}

#[verifier::external_body]
fn w_local_variable_and_write_node(node: &ruby_prism::Node<'_>) -> SyntaxNode {
    let n = node.as_local_variable_and_write_node().unwrap();
    write_node(WriteKind::LocalVariableAnd, n.value())
}

#[verifier::external_body]
fn w_local_variable_or_write_node(node: &ruby_prism::Node<'_>) -> SyntaxNode {
    let n = node.as_local_variable_or_write_node().unwrap();
    write_node(WriteKind::LocalVariableOr, n.value())
}

#[verifier::external_body]
fn w_instance_variable_operator_write_node(node: &ruby_prism::Node<'_>) -> SyntaxNode {
    let n = node.as_instance_variable_operator_write_node().unwrap();
    write_node(WriteKind::InstanceVariableOperator, n.value())
}

#[verifier::external_body]
fn w_instance_variable_and_write_node(node: &ruby_prism::Node<'_>) -> SyntaxNode {
    let n = node.as_instance_variable_and_write_node().unwrap();
    write_node(WriteKind::InstanceVariableAnd, n.value())
}

#[verifier::external_body]
fn w_instance_variable_or_write_node(node: &ruby_prism::Node<'_>) -> SyntaxNode {
    let n = node.as_instance_variable_or_write_node().unwrap();
    write_node(WriteKind::InstanceVariableOr, n.value())
}

#[verifier::external_body]
fn w_constant_operator_write_node(node: &ruby_prism::Node<'_>) -> SyntaxNode {
    let n = node.as_constant_operator_write_node().unwrap();
    write_node(WriteKind::ConstantOperator, n.value())
}

#[verifier::external_body]
fn w_constant_and_write_node(node: &ruby_prism::Node<'_>) -> SyntaxNode {
    let n = node.as_constant_and_write_node().unwrap();
    write_node(WriteKind::ConstantAnd, n.value())
}

#[verifier::external_body]
fn w_constant_or_write_node(node: &ruby_prism::Node<'_>) -> SyntaxNode {
    let n = node.as_constant_or_write_node().unwrap();
    write_node(WriteKind::ConstantOr, n.value())
}

#[verifier::external_body]
fn w_constant_path_operator_write_node(node: &ruby_prism::Node<'_>) -> SyntaxNode {
    let n = node.as_constant_path_operator_write_node().unwrap();
    write_node(WriteKind::ConstantPathOperator, n.value())
}

#[verifier::external_body]
fn w_constant_path_and_write_node(node: &ruby_prism::Node<'_>) -> SyntaxNode {
    let n = node.as_constant_path_and_write_node().unwrap();
    write_node(WriteKind::ConstantPathAnd, n.value())
}

#[verifier::external_body]
fn w_constant_path_or_write_node(node: &ruby_prism::Node<'_>) -> SyntaxNode {
    let n = node.as_constant_path_or_write_node().unwrap();
    write_node(WriteKind::ConstantPathOr, n.value())
}

#[verifier::external_body]
fn w_class_variable_operator_write_node(node: &ruby_prism::Node<'_>) -> SyntaxNode {
    let n = node.as_class_variable_operator_write_node().unwrap();
    write_node(WriteKind::ClassVariableOperator, n.value())
}

#[verifier::external_body]
fn w_class_variable_and_write_node(node: &ruby_prism::Node<'_>) -> SyntaxNode {
    let n = node.as_class_variable_and_write_node().unwrap();
    write_node(WriteKind::ClassVariableAnd, n.value())
}

#[verifier::external_body]
fn w_class_variable_or_write_node(node: &ruby_prism::Node<'_>) -> SyntaxNode {
    let n = node.as_class_variable_or_write_node().unwrap();
    write_node(WriteKind::ClassVariableOr, n.value())
}

#[verifier::external_body]
fn w_global_variable_operator_write_node(node: &ruby_prism::Node<'_>) -> SyntaxNode {
    let n = node.as_global_variable_operator_write_node().unwrap();
    write_node(WriteKind::GlobalVariableOperator, n.value())
}

#[verifier::external_body]
fn w_global_variable_and_write_node(node: &ruby_prism::Node<'_>) -> SyntaxNode {
    let n = node.as_global_variable_and_write_node().unwrap();
    write_node(WriteKind::GlobalVariableAnd, n.value())
}

#[verifier::external_body]
fn w_global_variable_or_write_node(node: &ruby_prism::Node<'_>) -> SyntaxNode {
    let n = node.as_global_variable_or_write_node().unwrap();
    write_node(WriteKind::GlobalVariableOr, n.value())
}

} // verus!
