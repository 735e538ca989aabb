use vstd::prelude::*;
use crate::ast::ast_node::ASTNodeId;
use crate::ast::block_body::Block;
use crate::source::source_span::SourceSpan;

verus! {

/// `for item in iterator` with its body.
#[derive(Debug)]
pub struct ForNode {
    pub item_variable: ForVariable,
    pub iterator: ASTNodeId,
    pub body: Block,
}

impl ForNode {
    pub fn new(item_variable: ForVariable, iterator: ASTNodeId, body: Block) -> (r: Self)
        ensures
            r.item_variable == item_variable,
            r.iterator == iterator,
            r.body == body,
    {
        Self { item_variable, iterator, body }
    }
}

/// The loop variable of a `for`.
#[derive(Debug, Copy, Clone, PartialEq, Eq, Structural)]
pub struct ForVariable {
    pub name: usize,
    pub span: SourceSpan,
}

impl ForVariable {
    pub fn new(name: usize, span: SourceSpan) -> (r: Self)
        ensures
            r.name == name,
            r.span == span,
    {
        Self { name, span }
    }
}

/// The body of a `for` loop (no content of its own yet).
pub struct ForBody {}

} // verus!
