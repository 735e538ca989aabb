use vstd::prelude::*;
use crate::ast::ast_node::ASTNodeId;

verus! {

/// A call: the called expression and the argument expressions in order.
#[derive(Debug)]
pub struct FunctionCallNode {
    pub function: ASTNodeId,
    pub args: Vec<ASTNodeId>,
}

impl FunctionCallNode {
    pub fn new(function: ASTNodeId, args: Vec<ASTNodeId>) -> (r: Self)
        ensures
            r.function == function,
            r.args == args,
    {
        Self { function, args }
    }
}

} // verus!
