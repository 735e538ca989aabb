use vstd::prelude::*;
use crate::ast::ast_node::ASTNodeId;
use crate::compiler_context::scope::ScopeId;

verus! {

/// The statements of a block, in order, and the scope they belong to.
#[derive(Debug)]
pub struct Block {
    pub statements: Vec<ASTNodeId>,
    pub scope_id: ScopeId,
}

impl Block {
    pub fn new(statements: Vec<ASTNodeId>, scope_id: ScopeId) -> (r: Self)
        ensures
            r.statements == statements,
            r.scope_id == scope_id,
    {
        Self { statements, scope_id }
    }

    /// Every statement of the block comes before node `bound`.
    pub open spec fn ids_below(&self, bound: int) -> bool {
        forall|i: int| 0 <= i < self.statements@.len() ==> (#[trigger] self.statements@[i]).0 < bound
    }
}

} // verus!
