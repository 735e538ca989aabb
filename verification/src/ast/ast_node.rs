use vstd::prelude::*;
use crate::ast::access_node::{AccessNode, MemberType};
use crate::ast::for_node::ForNode;
use crate::ast::function_call_node::FunctionCallNode;
use crate::ast::function_def_node::FunctionDefNode;
use crate::ast::if_node::IfNode;
use crate::ast::index_node::IndexNode;
use crate::ast::operator_nodes::{BinaryOperatorNode, UnaryOperatorNode, VariableNode};
use crate::ast::while_node::WhileNode;
use crate::compiler_context::scope::ScopeId;
use crate::source::source_span::SourceSpan;

verus! {

/// Identifier of a node of an AST: its index in the node arena.
#[derive(Debug, Copy, Clone, PartialEq, Eq, Structural)]
pub struct ASTNodeId(pub usize);

impl ASTNodeId {
    pub fn as_usize(&self) -> (r: usize)
        ensures
            r == self.0,
    {
        self.0
    }
}

/// A node: what it is, where it stands in the source, and the scope it
/// belongs to.
#[derive(Debug)]
pub struct ASTNode {
    pub node_type: ASTNodeType,
    pub span: SourceSpan,
    pub scope_id: ScopeId,
}

impl ASTNode {
    pub fn new(node_type: ASTNodeType, span: SourceSpan, scope_id: ScopeId) -> (r: Self)
        ensures
            r.node_type == node_type,
            r.span == span,
            r.scope_id == scope_id,
    {
        Self { node_type, span, scope_id }
    }
}

/// The kinds of node: expressions and statements.
#[derive(Debug)]
pub enum ASTNodeType {
    IntLiteral(usize),
    StringLiteral(usize),
    Variable(VariableNode),
    UnaryOperator(UnaryOperatorNode),
    BinaryOperator(BinaryOperatorNode),
    FunctionDef(FunctionDefNode),
    ReturnStatement(Option<ASTNodeId>),
    FunctionCall(FunctionCallNode),
    Index(IndexNode),
    Access(AccessNode),
    If(IfNode),
    While(WhileNode),
    For(ForNode),
}

/// Whether a node kind is an expression (as opposed to a statement).
pub open spec fn is_expression(t: ASTNodeType) -> bool {
    t is IntLiteral || t is StringLiteral || t is Variable || t is UnaryOperator || t is BinaryOperator
        || t is FunctionCall || t is Index || t is Access
}

impl ASTNodeType {
    /// Whether the node is an expression.
    pub fn is_expression_node(&self) -> (r: bool)
        ensures
            r == is_expression(*self),
    {
        match self {
            ASTNodeType::IntLiteral(_) | ASTNodeType::StringLiteral(_) | ASTNodeType::Variable(_)
            | ASTNodeType::UnaryOperator(_) | ASTNodeType::BinaryOperator(_) | ASTNodeType::FunctionCall(_)
            | ASTNodeType::Index(_) | ASTNodeType::Access(_) => true,
            _ => false,
        }
    }
}

/// Every node a node refers to comes before `bound`.
pub open spec fn children_below(t: ASTNodeType, bound: int) -> bool {
    match t {
        ASTNodeType::IntLiteral(_) | ASTNodeType::StringLiteral(_) | ASTNodeType::Variable(_) => true,
        ASTNodeType::UnaryOperator(n) => n.operand_id.0 < bound,
        ASTNodeType::BinaryOperator(n) => n.left.0 < bound && n.right.0 < bound,
        ASTNodeType::FunctionDef(f) => f.body.ids_below(bound),
        ASTNodeType::ReturnStatement(e) => e matches Some(x) ==> x.0 < bound,
        ASTNodeType::FunctionCall(c) => c.function.0 < bound && forall|i: int|
            0 <= i < c.args@.len() ==> (#[trigger] c.args@[i]).0 < bound,
        ASTNodeType::Index(n) => n.operand.0 < bound && n.arg.0 < bound,
        ASTNodeType::Access(a) => a.receiver.0 < bound && (a.member.member_type matches MemberType::Method(args)
            ==> forall|i: int| 0 <= i < args@.len() ==> (#[trigger] args@[i]).0 < bound),
        ASTNodeType::If(n) => {
            &&& forall|i: int| 0 <= i < n.condition_blocks@.len() ==> (#[trigger] n.condition_blocks@[i]).condition.0
                < bound && n.condition_blocks@[i].body.ids_below(bound)
            &&& n.else_body matches Some(b) ==> b.ids_below(bound)
        },
        ASTNodeType::While(w) => w.condition.0 < bound && w.body.ids_below(bound),
        ASTNodeType::For(f) => f.iterator.0 < bound && f.body.ids_below(bound),
    }
}

/// Every block of a node kind belongs to a scope before `bound`.
pub open spec fn block_scopes_below(t: ASTNodeType, bound: int) -> bool {
    match t {
        ASTNodeType::FunctionDef(f) => f.body.scope_id.0 < bound,
        ASTNodeType::If(n) => {
            &&& forall|i: int| 0 <= i < n.condition_blocks@.len() ==> (#[trigger] n.condition_blocks@[i]).body.scope_id.0 < bound
            &&& n.else_body matches Some(b) ==> b.scope_id.0 < bound
        },
        ASTNodeType::While(w) => w.body.scope_id.0 < bound,
        ASTNodeType::For(f) => f.body.scope_id.0 < bound,
        _ => true,
    }
}

/// Every type named in the signature of a function definition is one of
/// the first `n` interned strings.
pub open spec fn signature_names_below(t: ASTNodeType, n: nat) -> bool {
    match t {
        ASTNodeType::FunctionDef(f) => {
            &&& forall|j: int| 0 <= j < f.params@.len() ==> (#[trigger] f.params@[j]).type_annotation.type_symbol < n
            &&& f.return_type matches Some(rt) ==> rt.type_symbol < n
        },
        _ => true,
    }
}

/// Turning a node description into a node at a place and in a scope.
pub trait ASTNodeLocation: Sized {
    fn at(self, span: SourceSpan, scope: ScopeId) -> (r: ASTNode);
}

impl ASTNodeLocation for VariableNode {
    fn at(self, span: SourceSpan, scope: ScopeId) -> (r: ASTNode)
        ensures
            r == (ASTNode { node_type: ASTNodeType::Variable(self), span, scope_id: scope }),
    {
        ASTNode::new(ASTNodeType::Variable(self), span, scope)
    }
}

impl ASTNodeLocation for UnaryOperatorNode {
    fn at(self, span: SourceSpan, scope: ScopeId) -> (r: ASTNode)
        ensures
            r == (ASTNode { node_type: ASTNodeType::UnaryOperator(self), span, scope_id: scope }),
    {
        ASTNode::new(ASTNodeType::UnaryOperator(self), span, scope)
    }
}

impl ASTNodeLocation for BinaryOperatorNode {
    fn at(self, span: SourceSpan, scope: ScopeId) -> (r: ASTNode)
        ensures
            r == (ASTNode { node_type: ASTNodeType::BinaryOperator(self), span, scope_id: scope }),
    {
        ASTNode::new(ASTNodeType::BinaryOperator(self), span, scope)
    }
}

impl ASTNodeLocation for IndexNode {
    fn at(self, span: SourceSpan, scope: ScopeId) -> (r: ASTNode)
        ensures
            r == (ASTNode { node_type: ASTNodeType::Index(self), span, scope_id: scope }),
    {
        ASTNode::new(ASTNodeType::Index(self), span, scope)
    }
}

impl ASTNodeLocation for AccessNode {
    fn at(self, span: SourceSpan, scope: ScopeId) -> (r: ASTNode)
        ensures
            r == (ASTNode { node_type: ASTNodeType::Access(self), span, scope_id: scope }),
    {
        ASTNode::new(ASTNodeType::Access(self), span, scope)
    }
}

impl ASTNodeLocation for FunctionCallNode {
    fn at(self, span: SourceSpan, scope: ScopeId) -> (r: ASTNode)
        ensures
            r == (ASTNode { node_type: ASTNodeType::FunctionCall(self), span, scope_id: scope }),
    {
        ASTNode::new(ASTNodeType::FunctionCall(self), span, scope)
    }
}

impl ASTNodeLocation for FunctionDefNode {
    fn at(self, span: SourceSpan, scope: ScopeId) -> (r: ASTNode)
        ensures
            r == (ASTNode { node_type: ASTNodeType::FunctionDef(self), span, scope_id: scope }),
    {
        ASTNode::new(ASTNodeType::FunctionDef(self), span, scope)
    }
}

impl ASTNodeLocation for IfNode {
    fn at(self, span: SourceSpan, scope: ScopeId) -> (r: ASTNode)
        ensures
            r == (ASTNode { node_type: ASTNodeType::If(self), span, scope_id: scope }),
    {
        ASTNode::new(ASTNodeType::If(self), span, scope)
    }
}

impl ASTNodeLocation for WhileNode {
    fn at(self, span: SourceSpan, scope: ScopeId) -> (r: ASTNode)
        ensures
            r == (ASTNode { node_type: ASTNodeType::While(self), span, scope_id: scope }),
    {
        ASTNode::new(ASTNodeType::While(self), span, scope)
    }
}

impl ASTNodeLocation for ForNode {
    fn at(self, span: SourceSpan, scope: ScopeId) -> (r: ASTNode)
        ensures
            r == (ASTNode { node_type: ASTNodeType::For(self), span, scope_id: scope }),
    {
        ASTNode::new(ASTNodeType::For(self), span, scope)
    }
}

} // verus!
