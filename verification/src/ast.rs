//! The library's own model of a Ruby syntax tree.
//!
//! It holds, node kind by node kind, what the scanners and the traversal
//! read of a parsed Ruby program: names as bytes, child nodes, and byte
//! ranges of keywords and operators in the source. Node kinds whose fields
//! are never read are `Leaf` nodes.

use vstd::prelude::*;

verus! {

/// A byte range `[start, end)` of the source.
#[derive(Debug, Clone, Copy, PartialEq, Eq)]
pub struct Loc {
    pub start: usize,
    pub end: usize,
}

/// A method call `receiver.name(arguments) block`.
#[derive(Debug)]
pub struct CallNode {
    pub name: Vec<u8>,
    pub receiver: Option<Box<SyntaxNode>>,
    pub arguments: Vec<SyntaxNode>,
    /// A `Block` or `BlockArgument` node, when present.
    pub block: Option<Box<SyntaxNode>>,
    /// The `.` or `&.` operator.
    pub call_operator_loc: Option<Loc>,
    /// The method name as written.
    pub message_loc: Option<Loc>,
    /// The whole call expression.
    pub location: Loc,
}

/// A `{ ... }` or `do ... end` block.
#[derive(Debug)]
pub struct BlockNode {
    /// A `BlockParameters` node, or another parameters node (numbered or `it`).
    pub parameters: Option<Box<SyntaxNode>>,
    pub body: Option<Box<SyntaxNode>>,
}

/// The `&name` parameter of a method.
#[derive(Debug)]
pub struct BlockParameterNode {
    /// `None` for an anonymous `&`.
    pub name: Option<Vec<u8>>,
}

/// The parameter list of a method or block.
#[derive(Debug)]
pub struct ParametersNode {
    /// Required positional parameters (`RequiredParameter` nodes, or other
    /// nodes for destructuring parameters).
    pub requireds: Vec<SyntaxNode>,
    pub block: Option<BlockParameterNode>,
}

/// A method definition.
#[derive(Debug)]
pub struct DefNode {
    pub name: Vec<u8>,
    /// A `Parameters` node, when the method declares parameters.
    pub parameters: Option<Box<SyntaxNode>>,
    pub body: Option<Box<SyntaxNode>>,
    pub def_keyword_loc: Loc,
}

/// A `for index in collection ... end` loop.
#[derive(Debug)]
pub struct ForNode {
    pub index: Box<SyntaxNode>,
    pub collection: Box<SyntaxNode>,
    pub statements: Vec<SyntaxNode>,
    pub for_keyword_loc: Loc,
    pub in_keyword_loc: Loc,
    pub do_keyword_loc: Option<Loc>,
}

/// A `rescue` clause and the clauses that follow it.
#[derive(Debug)]
pub struct RescueNode {
    pub exceptions: Vec<SyntaxNode>,
    pub reference: Option<Box<SyntaxNode>>,
    pub statements: Vec<SyntaxNode>,
    pub subsequent: Option<Box<RescueNode>>,
    pub keyword_loc: Loc,
}

/// A `begin ... rescue ... else ... ensure ... end` expression.
#[derive(Debug)]
pub struct BeginNode {
    pub statements: Vec<SyntaxNode>,
    pub rescue_clause: Option<RescueNode>,
    /// Statements of the `else` clause.
    pub else_statements: Vec<SyntaxNode>,
    /// Statements of the `ensure` clause.
    pub ensure_statements: Vec<SyntaxNode>,
}

/// Kinds of write nodes whose only child is the assigned value.
#[derive(Debug, Clone, Copy, PartialEq, Eq)]
pub enum WriteKind {
    LocalVariable,
    ClassVariable,
    GlobalVariable,
    Constant,
    ConstantPath,
    LocalVariableOperator,
    LocalVariableAnd,
    LocalVariableOr,
    InstanceVariableOperator,
    InstanceVariableAnd,
    InstanceVariableOr,
    ConstantOperator,
    ConstantAnd,
    ConstantOr,
    ConstantPathOperator,
    ConstantPathAnd,
    ConstantPathOr,
    ClassVariableOperator,
    ClassVariableAnd,
    ClassVariableOr,
    GlobalVariableOperator,
    GlobalVariableAnd,
    GlobalVariableOr,
}

/// Kinds of index write nodes (`a[i] op= v`, `a[i] &&= v`, `a[i] ||= v`).
#[derive(Debug, Clone, Copy, PartialEq, Eq)]
pub enum IndexWriteKind {
    Operator,
    And,
    Or,
}

/// Node kinds whose fields are never read.
#[derive(Debug, Clone, Copy, PartialEq, Eq)]
pub enum LeafKind {
    Float,
    Symbol,
    True,
    False,
    Nil,
    Rational,
    Imaginary,
    /// Any other node kind.
    Other,
}

/// A Ruby syntax tree node.
#[derive(Debug)]
#[allow(inconsistent_fields)]
pub enum SyntaxNode {
    Program { statements: Vec<SyntaxNode> },
    Statements { body: Vec<SyntaxNode> },
    Call(CallNode),
    Block(BlockNode),
    BlockArgument { expression: Option<Box<SyntaxNode>> },
    BlockParameters { parameters: Option<ParametersNode> },
    Parameters(ParametersNode),
    RequiredParameter { name: Vec<u8> },
    Def(DefNode),
    For(ForNode),
    Begin(BeginNode),
    Rescue(RescueNode),
    Ensure { statements: Vec<SyntaxNode> },
    Else { statements: Vec<SyntaxNode> },
    If { predicate: Box<SyntaxNode>, statements: Vec<SyntaxNode>, subsequent: Option<Box<SyntaxNode>> },
    Unless { predicate: Box<SyntaxNode>, statements: Vec<SyntaxNode>, else_statements: Vec<SyntaxNode> },
    While { predicate: Box<SyntaxNode>, statements: Vec<SyntaxNode> },
    Until { predicate: Box<SyntaxNode>, statements: Vec<SyntaxNode> },
    Case { predicate: Option<Box<SyntaxNode>>, conditions: Vec<SyntaxNode>, else_statements: Vec<SyntaxNode> },
    CaseMatch { predicate: Option<Box<SyntaxNode>>, conditions: Vec<SyntaxNode>, else_statements: Vec<SyntaxNode> },
    When { conditions: Vec<SyntaxNode>, statements: Vec<SyntaxNode> },
    In { pattern: Box<SyntaxNode>, statements: Vec<SyntaxNode> },
    Class { constant_path: Box<SyntaxNode>, superclass: Option<Box<SyntaxNode>>, body: Option<Box<SyntaxNode>> },
    Module { constant_path: Box<SyntaxNode>, body: Option<Box<SyntaxNode>> },
    SingletonClass { expression: Box<SyntaxNode>, body: Option<Box<SyntaxNode>> },
    And { left: Box<SyntaxNode>, right: Box<SyntaxNode> },
    Or { left: Box<SyntaxNode>, right: Box<SyntaxNode> },
    Array { elements: Vec<SyntaxNode> },
    Hash { elements: Vec<SyntaxNode> },
    KeywordHash { elements: Vec<SyntaxNode> },
    Assoc { key: Box<SyntaxNode>, value: Box<SyntaxNode> },
    AssocSplat { value: Option<Box<SyntaxNode>> },
    Range { left: Option<Box<SyntaxNode>>, right: Option<Box<SyntaxNode>> },
    Parentheses { body: Option<Box<SyntaxNode>> },
    InterpolatedString { parts: Vec<SyntaxNode> },
    InterpolatedSymbol { parts: Vec<SyntaxNode> },
    InterpolatedRegularExpression { parts: Vec<SyntaxNode> },
    EmbeddedStatements { statements: Vec<SyntaxNode> },
    InstanceVariableWrite { name: Vec<u8>, value: Box<SyntaxNode> },
    Write { kind: WriteKind, value: Box<SyntaxNode> },
    ConstantPath { parent: Option<Box<SyntaxNode>> },
    MultiWrite { lefts: Vec<SyntaxNode>, rest: Option<Box<SyntaxNode>>, rights: Vec<SyntaxNode>, value: Box<SyntaxNode> },
    Splat { expression: Option<Box<SyntaxNode>> },
    Return { arguments: Vec<SyntaxNode> },
    Yield { arguments: Vec<SyntaxNode> },
    Break { arguments: Vec<SyntaxNode> },
    Next { arguments: Vec<SyntaxNode> },
    Super { arguments: Vec<SyntaxNode>, block: Option<Box<SyntaxNode>> },
    Lambda { parameters: Option<Box<SyntaxNode>>, body: Option<Box<SyntaxNode>> },
    Defined { value: Box<SyntaxNode> },
    MatchPredicate { value: Box<SyntaxNode>, pattern: Box<SyntaxNode> },
    MatchRequired { value: Box<SyntaxNode>, pattern: Box<SyntaxNode> },
    AliasMethod { new_name: Box<SyntaxNode>, old_name: Box<SyntaxNode> },
    AliasGlobalVariable { new_name: Box<SyntaxNode>, old_name: Box<SyntaxNode> },
    Undef { names: Vec<SyntaxNode> },
    IndexWrite {
        kind: IndexWriteKind,
        receiver: Option<Box<SyntaxNode>>,
        arguments: Vec<SyntaxNode>,
        value: Box<SyntaxNode>,
    },
    /// A string literal; `unescaped` is its content after escape processing.
    String { unescaped: Vec<u8> },
    /// An integer literal; `text` is its source text.
    Integer { text: Vec<u8> },
    ConstantRead { name: Vec<u8> },
    LocalVariableRead { name: Vec<u8> },
    InstanceVariableRead { name: Vec<u8> },
    Leaf(LeafKind),
}

/// The node in an optional box, as a sequence of zero or one node.
pub open spec fn opt_node(o: Option<Box<SyntaxNode>>) -> Seq<SyntaxNode> {
    match o {
        Some(b) => seq![*b],
        None => seq![],
    }
}

/// The nodes a rescue clause and its subsequent clauses visit, in order:
/// exceptions, reference, statements, then the next clause's.
pub open spec fn rescue_children(r: RescueNode) -> Seq<SyntaxNode>
    decreases r,
{
    r.exceptions@ + opt_node(r.reference) + r.statements@ + match r.subsequent {
        Some(s) => rescue_children(*s),
        None => seq![],
    }
}

/// The direct children of a node, in visiting order. Parameter lists of
/// blocks and methods are visited as single (childless) nodes; the target of
/// constant-path writes is not visited.
pub open spec fn children(n: SyntaxNode) -> Seq<SyntaxNode> {
    match n {
        SyntaxNode::Program { statements } => statements@,
        SyntaxNode::Statements { body } => body@,
        SyntaxNode::Call(c) => opt_node(c.receiver) + c.arguments@ + opt_node(c.block),
        SyntaxNode::Block(b) => opt_node(b.parameters) + opt_node(b.body),
        SyntaxNode::BlockArgument { expression } => opt_node(expression),
        SyntaxNode::Def(d) => opt_node(d.parameters) + opt_node(d.body),
        SyntaxNode::For(f) => seq![*f.index, *f.collection] + f.statements@,
        SyntaxNode::Begin(b) => b.statements@ + match b.rescue_clause {
            Some(r) => rescue_children(r),
            None => seq![],
        } + b.else_statements@ + b.ensure_statements@,
        SyntaxNode::Rescue(r) => rescue_children(r),
        SyntaxNode::Ensure { statements } => statements@,
        SyntaxNode::Else { statements } => statements@,
        SyntaxNode::If { predicate, statements, subsequent } => seq![*predicate] + statements@
            + opt_node(subsequent),
        SyntaxNode::Unless { predicate, statements, else_statements } => seq![*predicate]
            + statements@ + else_statements@,
        SyntaxNode::While { predicate, statements } => seq![*predicate] + statements@,
        SyntaxNode::Until { predicate, statements } => seq![*predicate] + statements@,
        SyntaxNode::Case { predicate, conditions, else_statements } => opt_node(predicate)
            + conditions@ + else_statements@,
        SyntaxNode::CaseMatch { predicate, conditions, else_statements } => opt_node(predicate)
            + conditions@ + else_statements@,
        SyntaxNode::When { conditions, statements } => conditions@ + statements@,
        SyntaxNode::In { pattern, statements } => seq![*pattern] + statements@,
        SyntaxNode::Class { constant_path, superclass, body } => seq![*constant_path] + opt_node(
            superclass,
        ) + opt_node(body),
        SyntaxNode::Module { constant_path, body } => seq![*constant_path] + opt_node(body),
        SyntaxNode::SingletonClass { expression, body } => seq![*expression] + opt_node(body),
        SyntaxNode::And { left, right } => seq![*left, *right],
        SyntaxNode::Or { left, right } => seq![*left, *right],
        SyntaxNode::Array { elements } => elements@,
        SyntaxNode::Hash { elements } => elements@,
        SyntaxNode::KeywordHash { elements } => elements@,
        SyntaxNode::Assoc { key, value } => seq![*key, *value],
        SyntaxNode::AssocSplat { value } => opt_node(value),
        SyntaxNode::Range { left, right } => opt_node(left) + opt_node(right),
        SyntaxNode::Parentheses { body } => opt_node(body),
        SyntaxNode::InterpolatedString { parts } => parts@,
        SyntaxNode::InterpolatedSymbol { parts } => parts@,
        SyntaxNode::InterpolatedRegularExpression { parts } => parts@,
        SyntaxNode::EmbeddedStatements { statements } => statements@,
        SyntaxNode::InstanceVariableWrite { name, value } => seq![*value],
        SyntaxNode::Write { kind, value } => seq![*value],
        SyntaxNode::ConstantPath { parent } => opt_node(parent),
        SyntaxNode::MultiWrite { lefts, rest, rights, value } => lefts@ + opt_node(rest) + rights@
            + seq![*value],
        SyntaxNode::Splat { expression } => opt_node(expression),
        SyntaxNode::Return { arguments } => arguments@,
        SyntaxNode::Yield { arguments } => arguments@,
        SyntaxNode::Break { arguments } => arguments@,
        SyntaxNode::Next { arguments } => arguments@,
        SyntaxNode::Super { arguments, block } => arguments@ + opt_node(block),
        SyntaxNode::Lambda { parameters, body } => opt_node(parameters) + opt_node(body),
        SyntaxNode::Defined { value } => seq![*value],
        SyntaxNode::MatchPredicate { value, pattern } => seq![*value, *pattern],
        SyntaxNode::MatchRequired { value, pattern } => seq![*value, *pattern],
        SyntaxNode::AliasMethod { new_name, old_name } => seq![*new_name, *old_name],
        SyntaxNode::AliasGlobalVariable { new_name, old_name } => seq![*new_name, *old_name],
        SyntaxNode::Undef { names } => names@,
        SyntaxNode::IndexWrite { kind, receiver, arguments, value } => opt_node(receiver)
            + arguments@ + seq![*value],
        _ => seq![],
    }
}

/// The nodes a sequence of references points at.
pub open spec fn deref_all(s: Seq<&SyntaxNode>) -> Seq<SyntaxNode> {
    s.map_values(|x: &SyntaxNode| *x)
}

} // verus!
