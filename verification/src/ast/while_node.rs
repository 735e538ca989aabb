use vstd::prelude::*;
use crate::ast::ast_node::ASTNodeId;
use crate::ast::block_body::Block;

verus! {

/// `while condition` with its body.
#[derive(Debug)]
pub struct WhileNode {
    pub condition: ASTNodeId,
    pub body: Block,
}

impl WhileNode {
    pub fn new(condition: ASTNodeId, body: Block) -> (r: Self)
        ensures
            r.condition == condition,
            r.body == body,
    {
        Self { condition, body }
    }
}

} // verus!
