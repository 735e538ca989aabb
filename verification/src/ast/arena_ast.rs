use vstd::prelude::*;
use crate::ast::ast_node::{ASTNode, ASTNodeId, block_scopes_below, children_below, signature_names_below};

verus! {

/// A syntax tree stored as an arena of nodes. A node refers to other nodes
/// by identifier, always to nodes added before it; the statements of the
/// program are listed as roots in source order.
#[derive(Debug)]
pub struct AST {
    pub node_arena: Vec<ASTNode>,
    pub statement_root_node_ids: Vec<ASTNodeId>,
}

/// `after` keeps every node and root of `before` and only adds.
pub open spec fn ast_extends(before: AST, after: AST) -> bool {
    &&& before.node_arena@.len() <= after.node_arena@.len()
    &&& forall|i: int| 0 <= i < before.node_arena@.len() ==> after.node_arena@[i] == before.node_arena@[i]
    &&& before.statement_root_node_ids@.len() <= after.statement_root_node_ids@.len()
    &&& forall|i: int| 0 <= i < before.statement_root_node_ids@.len() ==> after.statement_root_node_ids@[i]
        == before.statement_root_node_ids@[i]
}

impl AST {
    /// The arena's invariant: nodes refer only to earlier nodes, and roots
    /// are nodes of the arena.
    pub open spec fn wf(&self) -> bool {
        &&& forall|i: int| 0 <= i < self.node_arena@.len() ==> children_below(#[trigger] self.node_arena@[i].node_type, i)
        &&& forall|i: int| 0 <= i < self.statement_root_node_ids@.len() ==> (#[trigger] self.statement_root_node_ids@[i]).0
            < self.node_arena@.len()
    }

    /// Every node, and every block of every node, belongs to a scope
    /// before `bound`.
    pub open spec fn scopes_below(&self, bound: int) -> bool {
        forall|i: int| 0 <= i < self.node_arena@.len() ==> (#[trigger] self.node_arena@[i]).scope_id.0 < bound
            && block_scopes_below(self.node_arena@[i].node_type, bound)
    }

    /// Every type named in a function signature is one of the first `n`
    /// interned strings.
    pub open spec fn names_below(&self, n: nat) -> bool {
        forall|i: int| 0 <= i < self.node_arena@.len() ==> signature_names_below(#[trigger] self.node_arena@[i].node_type, n)
    }

    /// Number of nodes.
    pub open spec fn len(&self) -> nat {
        self.node_arena@.len()
    }

    pub fn new() -> (r: Self)
        ensures
            r.wf(),
            r.node_arena@.len() == 0,
            r.statement_root_node_ids@.len() == 0,
    {
        Self { node_arena: Vec::new(), statement_root_node_ids: Vec::new() }
    }

    /// Adds a node, which may refer only to nodes already present, and
    /// returns its identifier.
    pub fn add_node(&mut self, node: ASTNode) -> (r: ASTNodeId)
        requires
            old(self).wf(),
            children_below(node.node_type, old(self).node_arena@.len() as int),
        ensures
            final(self).wf(),
            r.0 == old(self).node_arena@.len(),
            final(self).node_arena@ == old(self).node_arena@.push(node),
            final(self).statement_root_node_ids == old(self).statement_root_node_ids,
            ast_extends(*old(self), *final(self)),
    {
        let id = self.node_arena.len();
        self.node_arena.push(node);
        assert forall|i: int| 0 <= i < self.node_arena@.len() implies children_below(#[trigger] self.node_arena@[i].node_type, i) by {
            if i < id {
                assert(self.node_arena@[i] == old(self).node_arena@[i]);
            }
        }
        ASTNodeId(id)
    }

    /// Lists a node as a statement of the program.
    pub fn add_statement_root(&mut self, root_node_id: ASTNodeId)
        requires
            old(self).wf(),
            root_node_id.0 < old(self).node_arena@.len(),
        ensures
            final(self).wf(),
            final(self).node_arena == old(self).node_arena,
            final(self).statement_root_node_ids@ == old(self).statement_root_node_ids@.push(root_node_id),
            ast_extends(*old(self), *final(self)),
    {
        self.statement_root_node_ids.push(root_node_id);
    }

    /// The node with identifier `id`.
    pub fn lookup(&self, id: ASTNodeId) -> (r: &ASTNode)
        requires
            id.0 < self.node_arena@.len(),
        ensures
            *r == self.node_arena@[id.0 as int],
    {
        &self.node_arena[id.0]
    }

    /// The node with identifier `id`, to change in place. What a caller
    /// writes replaces the node; keeping the AST well-formed is the caller's
    /// part.
    pub fn lookup_mut(&mut self, id: ASTNodeId) -> (r: &mut ASTNode)
        requires
            id.0 < old(self).node_arena@.len(),
        ensures
            *r == old(self).node_arena@[id.0 as int],
            final(self).node_arena@ == old(self).node_arena@.update(id.0 as int, *final(r)),
            final(self).statement_root_node_ids == old(self).statement_root_node_ids,
    {
        &mut self.node_arena[id.0]
    }

    /// Number of nodes.
    pub fn node_count(&self) -> (r: usize)
        ensures
            r == self.node_arena@.len(),
    {
        self.node_arena.len()
    }

    /// The identifiers of all nodes, in order.
    pub fn ast_node_id_iter(&self) -> (r: Vec<ASTNodeId>)
        ensures
            r@.len() == self.node_arena@.len(),
            forall|i: int| 0 <= i < r@.len() ==> r@[i].0 == i,
    {
        let mut r: Vec<ASTNodeId> = Vec::new();
        let mut i: usize = 0;
        while i < self.node_arena.len()
            invariant
                i <= self.node_arena@.len(),
                r@.len() == i,
                forall|j: int| 0 <= j < i ==> r@[j].0 == j,
            decreases self.node_arena@.len() - i,
        {
            r.push(ASTNodeId(i));
            i += 1;
        }
        r
    }

    /// The statement roots, in source order.
    pub fn statement_root_node_id_iter(&self) -> (r: &[ASTNodeId])
        ensures
            r@ == self.statement_root_node_ids@,
    {
        self.statement_root_node_ids.as_slice()
    }
}

/// Extension is a preorder: it is reflexive and transitive.
pub proof fn lemma_ast_extends_trans(a: AST, b: AST, c: AST)
    ensures
        ast_extends(a, a),
        ast_extends(a, b) && ast_extends(b, c) ==> ast_extends(a, c),
{
}

} // verus!
