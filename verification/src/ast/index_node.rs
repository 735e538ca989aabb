use vstd::prelude::*;
use crate::ast::ast_node::ASTNodeId;

verus! {

/// `operand[arg]`.
#[derive(Debug, Copy, Clone, PartialEq, Eq, Structural)]
pub struct IndexNode {
    pub operand: ASTNodeId,
    pub arg: ASTNodeId,
}

impl IndexNode {
    pub fn new(operand: ASTNodeId, arg: ASTNodeId) -> (r: Self)
        ensures
            r.operand == operand,
            r.arg == arg,
    {
        Self { operand, arg }
    }
}

} // verus!
