use vstd::prelude::*;
use crate::ast::ast_node::ASTNodeId;
use crate::operators::binary_operators::BinaryOperator;
use crate::operators::unary_operators::UnaryOperator;
use crate::types::type_annotation::TypeAnnotation;

verus! {

/// A use or declaration of a variable, with its type if one is written.
#[derive(Debug)]
pub struct VariableNode {
    pub name: usize,
    pub type_annotation: Option<TypeAnnotation>,
}

impl VariableNode {
    pub fn new(name: usize, type_annotation: Option<TypeAnnotation>) -> (r: Self)
        ensures
            r.name == name,
            r.type_annotation == type_annotation,
    {
        Self { name, type_annotation }
    }
}

/// A unary operation on one operand.
#[derive(Debug, Copy, Clone, PartialEq, Eq, Structural)]
pub struct UnaryOperatorNode {
    pub op_type: UnaryOperator,
    pub operand_id: ASTNodeId,
}

impl UnaryOperatorNode {
    pub fn new(op_type: UnaryOperator, operand_id: ASTNodeId) -> (r: Self)
        ensures
            r.op_type == op_type,
            r.operand_id == operand_id,
    {
        Self { op_type, operand_id }
    }
}

/// A binary operation on a left and a right operand.
#[derive(Debug, Copy, Clone, PartialEq, Eq, Structural)]
pub struct BinaryOperatorNode {
    pub op_type: BinaryOperator,
    pub left: ASTNodeId,
    pub right: ASTNodeId,
}

impl BinaryOperatorNode {
    pub fn new(op_type: BinaryOperator, left: ASTNodeId, right: ASTNodeId) -> (r: Self)
        ensures
            r.op_type == op_type,
            r.left == left,
            r.right == right,
    {
        Self { op_type, left, right }
    }
}

} // verus!
