use vstd::prelude::*;
use crate::ast::ast_node::ASTNodeId;
use crate::ast::block_body::Block;

verus! {

/// An `if` with its `elif` branches (each a condition and a body) and an
/// optional `else` body.
#[derive(Debug)]
pub struct IfNode {
    pub condition_blocks: Vec<ConditionBlock>,
    pub else_body: Option<Block>,
}

impl IfNode {
    pub fn new(condition_blocks: Vec<ConditionBlock>, else_body: Option<Block>) -> (r: Self)
        ensures
            r.condition_blocks == condition_blocks,
            r.else_body == else_body,
    {
        Self { condition_blocks, else_body }
    }

    /// The condition of the first branch.
    pub fn if_condition(&self) -> (r: ASTNodeId)
        requires
            self.condition_blocks@.len() > 0,
        ensures
            r == self.condition_blocks@[0].condition,
    {
        self.condition_blocks[0].condition
    }
}

/// One branch of an `if`: a condition and the body run when it holds.
#[derive(Debug)]
pub struct ConditionBlock {
    pub condition: ASTNodeId,
    pub body: Block,
}

impl ConditionBlock {
    pub fn new(condition: ASTNodeId, body: Block) -> (r: Self)
        ensures
            r.condition == condition,
            r.body == body,
    {
        Self { condition, body }
    }
}

} // verus!
