use vstd::prelude::*;
use crate::ast::arena_ast::AST;
use crate::ast::ast_node::{ASTNodeId, ASTNodeType, block_scopes_below, children_below};
use crate::ast::for_node::ForNode;
use crate::ast::function_call_node::FunctionCallNode;
use crate::ast::if_node::IfNode;
use crate::operators::binary_operators::binary_precedence_group;
use crate::ast::index_node::IndexNode;
use crate::ast::while_node::WhileNode;
use crate::ast::block_body::Block;
use crate::ast::function_def_node::{FunctionDefNode, Parameter};
use crate::ast::operator_nodes::{BinaryOperatorNode, VariableNode};
use crate::compiler_context::scope::ScopeId;
use crate::compiler_context::symbol_table::{SymbolTable, resolve_in};
use crate::error::spanned_error::{CompilerError, ErrorKind, SpannableError};
use crate::operators::precedence::OperatorPrecedenceGroup;
use crate::semantic::error::SemanticError;
use crate::semantic::type_synthesis::types_assigned;
use crate::source::source_span::SourceSpan;

verus! {

/// `after` is `before` with declarations added: the same scopes, each
/// keeping its enclosing scope, its function and every symbol it declared,
/// the new symbols without a type yet.
pub open spec fn symbols_extend(before: SymbolTable, after: SymbolTable) -> bool {
    &&& after.wf()
    &&& after.next_symbol_id >= before.next_symbol_id
    &&& after.scopes@.len() == before.scopes@.len()
    &&& forall|i: int| 0 <= i < before.scopes@.len() ==> {
        &&& (#[trigger] after.scopes@[i]).parent == before.scopes@[i].parent
        &&& after.scopes@[i].function == before.scopes@[i].function
        &&& forall|k: usize| before.scopes@[i].symbols_view().contains_key(k) ==> {
            &&& (#[trigger] after.scopes@[i].symbols_view().contains_key(k))
            &&& after.scopes@[i].symbols_view()[k] == before.scopes@[i].symbols_view()[k]
        }
        &&& forall|k: usize| #[trigger] after.scopes@[i].symbols_view().contains_key(k)
            && !before.scopes@[i].symbols_view().contains_key(k) ==> after.scopes@[i].symbols_view()[k].data_type_id is None
    }
}

/// The errors name resolution reports.
pub open spec fn is_resolution_error(e: CompilerError) -> bool {
    match e.error_type {
        ErrorKind::Semantic(SemanticError::UndefinedVariable(_)) => true,
        ErrorKind::Semantic(SemanticError::DuplicateFunctionName(_)) => true,
        ErrorKind::Semantic(SemanticError::DuplicateParameterName(_)) => true,
        _ => false,
    }
}

/// Adding declarations is a preorder.
pub proof fn lemma_symbols_extend_trans(a: SymbolTable, b: SymbolTable, c: SymbolTable)
    ensures
        a.wf() ==> symbols_extend(a, a),
        symbols_extend(a, b) && symbols_extend(b, c) ==> symbols_extend(a, c),
{
    if symbols_extend(a, b) && symbols_extend(b, c) {
        assert forall|i: int| 0 <= i < a.scopes@.len() implies {
            &&& (#[trigger] c.scopes@[i]).parent == a.scopes@[i].parent
            &&& c.scopes@[i].function == a.scopes@[i].function
            &&& forall|k: usize| a.scopes@[i].symbols_view().contains_key(k) ==> {
                &&& (#[trigger] c.scopes@[i].symbols_view().contains_key(k))
                &&& c.scopes@[i].symbols_view()[k] == a.scopes@[i].symbols_view()[k]
            }
            &&& forall|k: usize| #[trigger] c.scopes@[i].symbols_view().contains_key(k)
                && !a.scopes@[i].symbols_view().contains_key(k) ==> c.scopes@[i].symbols_view()[k].data_type_id is None
        } by {
            assert(b.scopes@[i].parent == a.scopes@[i].parent);
            assert forall|k: usize| a.scopes@[i].symbols_view().contains_key(k) implies {
                &&& (#[trigger] c.scopes@[i].symbols_view().contains_key(k))
                &&& c.scopes@[i].symbols_view()[k] == a.scopes@[i].symbols_view()[k]
            } by {
                assert(b.scopes@[i].symbols_view().contains_key(k));
                assert(b.scopes@[i].symbols_view()[k] == a.scopes@[i].symbols_view()[k]);
                assert(c.scopes@[i].symbols_view().contains_key(k));
                assert(c.scopes@[i].symbols_view()[k] == b.scopes@[i].symbols_view()[k]);
            }
            assert forall|k: usize| #[trigger] c.scopes@[i].symbols_view().contains_key(k)
                && !a.scopes@[i].symbols_view().contains_key(k) implies c.scopes@[i].symbols_view()[k].data_type_id is None by {
                if b.scopes@[i].symbols_view().contains_key(k) {
                    assert(c.scopes@[i].symbols_view()[k] == b.scopes@[i].symbols_view()[k]);
                }
            }
        }
    }
}

/// Every variable of the expression at node `id`, assignment targets
/// included, denotes a symbol from scope `scope`. The operand and members
/// of a member access are not looked at.
pub open spec fn expr_resolves(ast: AST, table: SymbolTable, id: int, scope: ScopeId) -> bool
    decreases id,
{
    if 0 <= id < ast.node_arena@.len() {
        match ast.node_arena@[id].node_type {
            ASTNodeType::Variable(v) => table.resolve(v.name, scope) is Some,
            ASTNodeType::UnaryOperator(op) => op.operand_id.0 < id && expr_resolves(ast, table, op.operand_id.0 as int, scope),
            ASTNodeType::BinaryOperator(op) => op.left.0 < id && op.right.0 < id && expr_resolves(ast, table, op.left.0 as int, scope)
                && expr_resolves(ast, table, op.right.0 as int, scope),
            ASTNodeType::FunctionCall(c) => c.function.0 < id && expr_resolves(ast, table, c.function.0 as int, scope)
                && forall|k: int| 0 <= k < c.args@.len() ==> (#[trigger] c.args@[k]).0 < id && expr_resolves(ast, table, c.args@[k].0 as int, scope),
            ASTNodeType::Index(ix) => ix.operand.0 < id && ix.arg.0 < id && expr_resolves(ast, table, ix.operand.0 as int, scope)
                && expr_resolves(ast, table, ix.arg.0 as int, scope),
            _ => true,
        }
    } else {
        true
    }
}

/// A name that resolves keeps resolving, to a symbol, as declarations are
/// added or types recorded.
pub proof fn lemma_resolve_monotonic(a: SymbolTable, b: SymbolTable, name: usize, id: int)
    requires
        a.wf(),
        symbols_extend(a, b) || types_assigned(a, b),
        resolve_in(a.scopes@, name, id) is Some,
    ensures
        resolve_in(b.scopes@, name, id) is Some,
    decreases id,
{
    if types_assigned(a, b) {
        assert(b.scopes@[id].symbols_view().dom() == a.scopes@[id].symbols_view().dom());
    }
    if a.scopes@[id].symbols_view().contains_key(name) {
        assert(b.scopes@[id].symbols_view().contains_key(name));
    } else if !b.scopes@[id].symbols_view().contains_key(name) {
        assert(b.scopes@[id].parent == a.scopes@[id].parent);
        let p = a.scopes@[id].parent->0;
        lemma_resolve_monotonic(a, b, name, p.0 as int);
    }
}

/// An expression whose variables resolve keeps resolving as declarations
/// are added or types recorded.
pub proof fn lemma_expr_resolves_monotonic(ast: AST, a: SymbolTable, b: SymbolTable, id: int, scope: ScopeId)
    requires
        a.wf(),
        symbols_extend(a, b) || types_assigned(a, b),
        expr_resolves(ast, a, id, scope),
    ensures
        expr_resolves(ast, b, id, scope),
    decreases id,
{
    if 0 <= id < ast.node_arena@.len() {
        match ast.node_arena@[id].node_type {
            ASTNodeType::Variable(v) => lemma_resolve_monotonic(a, b, v.name, scope.0 as int),
            ASTNodeType::UnaryOperator(op) => lemma_expr_resolves_monotonic(ast, a, b, op.operand_id.0 as int, scope),
            ASTNodeType::BinaryOperator(op) => {
                lemma_expr_resolves_monotonic(ast, a, b, op.left.0 as int, scope);
                lemma_expr_resolves_monotonic(ast, a, b, op.right.0 as int, scope);
            },
            ASTNodeType::FunctionCall(c) => {
                lemma_expr_resolves_monotonic(ast, a, b, c.function.0 as int, scope);
                assert forall|k: int| 0 <= k < c.args@.len() implies (#[trigger] c.args@[k]).0 < id && expr_resolves(ast, b, c.args@[k].0 as int, scope) by {
                    lemma_expr_resolves_monotonic(ast, a, b, c.args@[k].0 as int, scope);
                }
            },
            ASTNodeType::Index(ix) => {
                lemma_expr_resolves_monotonic(ast, a, b, ix.operand.0 as int, scope);
                lemma_expr_resolves_monotonic(ast, a, b, ix.arg.0 as int, scope);
            },
            _ => {},
        }
    }
}

/// The signature of the function defined at node `id`, if one is, is
/// declared: its name in scope `scope`, each parameter in its body's scope.
pub open spec fn signature_resolves(ast: AST, table: SymbolTable, id: int, scope: ScopeId) -> bool {
    0 <= id < ast.node_arena@.len() ==> match ast.node_arena@[id].node_type {
        ASTNodeType::FunctionDef(f) => table.resolve(f.name, scope) is Some && forall|k: int|
            0 <= k < f.params@.len() ==> table.resolve((#[trigger] f.params@[k]).name, f.body.scope_id) is Some,
        _ => true,
    }
}

/// Every name that the statement at node `id`, standing in scope `scope`,
/// uses or declares denotes a symbol where it stands: the variables of its
/// expressions in `scope`, a function's signature, a loop variable in its
/// body's scope, and in turn every statement of the blocks it holds.
pub open spec fn statement_resolves(ast: AST, table: SymbolTable, id: int, scope: ScopeId) -> bool
    decreases id, 1int,
{
    if 0 <= id < ast.node_arena@.len() {
        match ast.node_arena@[id].node_type {
            ASTNodeType::FunctionDef(f) => signature_resolves(ast, table, id, scope) && block_resolves(
                ast,
                table,
                f.body.statements@,
                f.body.scope_id,
                id,
            ),
            ASTNodeType::ReturnStatement(e) => e matches Some(x) ==> expr_resolves(ast, table, x.0 as int, scope),
            ASTNodeType::If(n) => (forall|k: int| 0 <= k < n.condition_blocks@.len() ==> expr_resolves(ast, table, (#[trigger] n.condition_blocks@[k]).condition.0 as int, scope)
                && block_resolves(ast, table, n.condition_blocks@[k].body.statements@, n.condition_blocks@[k].body.scope_id, id))
                && (n.else_body matches Some(b) ==> block_resolves(ast, table, b.statements@, b.scope_id, id)),
            ASTNodeType::While(n) => expr_resolves(ast, table, n.condition.0 as int, scope) && block_resolves(
                ast,
                table,
                n.body.statements@,
                n.body.scope_id,
                id,
            ),
            ASTNodeType::For(n) => expr_resolves(ast, table, n.iterator.0 as int, scope) && table.resolve(
                n.item_variable.name,
                n.body.scope_id,
            ) is Some && block_resolves(ast, table, n.body.statements@, n.body.scope_id, id),
            _ => expr_resolves(ast, table, id, scope),
        }
    } else {
        true
    }
}

/// Every statement of a block in scope `scope`, each before node `owner`,
/// resolves.
pub open spec fn block_resolves(ast: AST, table: SymbolTable, statements: Seq<ASTNodeId>, scope: ScopeId, owner: int) -> bool
    decreases owner, 0int,
{
    forall|i: int| 0 <= i < statements.len() ==> (#[trigger] statements[i]).0 < owner && statement_resolves(
        ast,
        table,
        statements[i].0 as int,
        scope,
    )
}

/// A signature that is declared stays declared as declarations are added
/// or types recorded.
pub proof fn lemma_signature_resolves_monotonic(ast: AST, a: SymbolTable, b: SymbolTable, id: int, scope: ScopeId)
    requires
        a.wf(),
        symbols_extend(a, b) || types_assigned(a, b),
        signature_resolves(ast, a, id, scope),
    ensures
        signature_resolves(ast, b, id, scope),
{
    if 0 <= id < ast.node_arena@.len() {
        if let ASTNodeType::FunctionDef(f) = ast.node_arena@[id].node_type {
            lemma_resolve_monotonic(a, b, f.name, scope.0 as int);
            assert forall|k: int| 0 <= k < f.params@.len() implies b.resolve((#[trigger] f.params@[k]).name, f.body.scope_id) is Some by {
                lemma_resolve_monotonic(a, b, f.params@[k].name, f.body.scope_id.0 as int);
            }
        }
    }
}

/// A statement that resolves keeps resolving as declarations are added or
/// types recorded.
pub proof fn lemma_statement_resolves_monotonic(ast: AST, a: SymbolTable, b: SymbolTable, id: int, scope: ScopeId)
    requires
        a.wf(),
        symbols_extend(a, b) || types_assigned(a, b),
        statement_resolves(ast, a, id, scope),
    ensures
        statement_resolves(ast, b, id, scope),
    decreases id, 1int,
{
    if 0 <= id < ast.node_arena@.len() {
        match ast.node_arena@[id].node_type {
            ASTNodeType::FunctionDef(f) => {
                lemma_signature_resolves_monotonic(ast, a, b, id, scope);
                lemma_block_resolves_monotonic(ast, a, b, f.body.statements@, f.body.scope_id, id);
            },
            ASTNodeType::ReturnStatement(e) => {
                if let Some(x) = e {
                    lemma_expr_resolves_monotonic(ast, a, b, x.0 as int, scope);
                }
            },
            ASTNodeType::If(n) => {
                assert forall|k: int| 0 <= k < n.condition_blocks@.len() implies expr_resolves(ast, b, (#[trigger] n.condition_blocks@[k]).condition.0 as int, scope)
                    && block_resolves(ast, b, n.condition_blocks@[k].body.statements@, n.condition_blocks@[k].body.scope_id, id) by {
                    lemma_expr_resolves_monotonic(ast, a, b, n.condition_blocks@[k].condition.0 as int, scope);
                    lemma_block_resolves_monotonic(ast, a, b, n.condition_blocks@[k].body.statements@, n.condition_blocks@[k].body.scope_id, id);
                }
                if let Some(e) = n.else_body {
                    lemma_block_resolves_monotonic(ast, a, b, e.statements@, e.scope_id, id);
                }
            },
            ASTNodeType::While(n) => {
                lemma_expr_resolves_monotonic(ast, a, b, n.condition.0 as int, scope);
                lemma_block_resolves_monotonic(ast, a, b, n.body.statements@, n.body.scope_id, id);
            },
            ASTNodeType::For(n) => {
                lemma_expr_resolves_monotonic(ast, a, b, n.iterator.0 as int, scope);
                lemma_resolve_monotonic(a, b, n.item_variable.name, n.body.scope_id.0 as int);
                lemma_block_resolves_monotonic(ast, a, b, n.body.statements@, n.body.scope_id, id);
            },
            _ => lemma_expr_resolves_monotonic(ast, a, b, id, scope),
        }
    }
}

/// A block that resolves keeps resolving as declarations are added or
/// types recorded.
pub proof fn lemma_block_resolves_monotonic(ast: AST, a: SymbolTable, b: SymbolTable, statements: Seq<ASTNodeId>, scope: ScopeId, owner: int)
    requires
        a.wf(),
        symbols_extend(a, b) || types_assigned(a, b),
        block_resolves(ast, a, statements, scope, owner),
    ensures
        block_resolves(ast, b, statements, scope, owner),
    decreases owner, 0int,
{
    assert forall|i: int| 0 <= i < statements.len() implies (#[trigger] statements[i]).0 < owner && statement_resolves(
        ast,
        b,
        statements[i].0 as int,
        scope,
    ) by {
        lemma_statement_resolves_monotonic(ast, a, b, statements[i].0 as int, scope);
    }
}

/// The enclosing scope of each scope of a table.
pub open spec fn scope_parents(table: SymbolTable) -> Seq<Option<ScopeId>> {
    Seq::new(table.scopes@.len(), |i: int| table.scopes@[i].parent)
}

/// The declarations of a table, as (scope, name) pairs.
pub open spec fn declarations(table: SymbolTable) -> Set<(int, usize)> {
    Set::new(|k: (int, usize)| 0 <= k.0 < table.scopes@.len() && table.scopes@[k.0].symbols_view().contains_key(k.1))
}

/// `name` is declared in scope `id` or in a scope enclosing it.
pub open spec fn declared(parents: Seq<Option<ScopeId>>, decls: Set<(int, usize)>, name: usize, id: int) -> bool
    decreases id,
{
    if id < 0 || id >= parents.len() {
        false
    } else if decls.contains((id, name)) {
        true
    } else {
        match parents[id] {
            Some(p) => p.0 < id && declared(parents, decls, name, p.0 as int),
            None => false,
        }
    }
}

/// The semantic error `e` at `span`.
pub open spec fn resolution_error(e: SemanticError, span: SourceSpan) -> CompilerError {
    CompilerError { error_type: ErrorKind::Semantic(e), span }
}

/// Resolving the expression at node `id` in `scope`, with declarations
/// `decls`: the outcome, and the declarations after it. A variable must be
/// declared where it is used; an assignment to a variable declares it
/// after its value is resolved; a call resolves the called expression,
/// then each argument; member accesses are not looked at.
pub open spec fn res_expr(ast: AST, parents: Seq<Option<ScopeId>>, decls: Set<(int, usize)>, id: int, scope: ScopeId) -> (
    Result<(), CompilerError>,
    Set<(int, usize)>,
)
    decreases id, 1int, 0int,
{
    if 0 <= id < ast.node_arena@.len() {
        let node = ast.node_arena@[id];
        match node.node_type {
            ASTNodeType::Variable(v) => if declared(parents, decls, v.name, scope.0 as int) {
                (Ok(()), decls)
            } else {
                (Err(resolution_error(SemanticError::UndefinedVariable(v.name), node.span)), decls)
            },
            ASTNodeType::UnaryOperator(op) => if 0 <= op.operand_id.0 < id {
                res_expr(ast, parents, decls, op.operand_id.0 as int, scope)
            } else {
                (Ok(()), decls)
            },
            ASTNodeType::BinaryOperator(op) => if 0 <= op.left.0 < id && 0 <= op.right.0 < id {
                if binary_precedence_group(op.op_type) is Assign {
                    match res_expr(ast, parents, decls, op.right.0 as int, scope) {
                        (Err(e), d1) => (Err(e), d1),
                        (Ok(()), d1) => match ast.node_arena@[op.left.0 as int].node_type {
                            ASTNodeType::Variable(v) => (Ok(()), d1.insert((scope.0 as int, v.name))),
                            _ => res_expr(ast, parents, d1, op.left.0 as int, scope),
                        },
                    }
                } else {
                    match res_expr(ast, parents, decls, op.left.0 as int, scope) {
                        (Err(e), d1) => (Err(e), d1),
                        (Ok(()), d1) => res_expr(ast, parents, d1, op.right.0 as int, scope),
                    }
                }
            } else {
                (Ok(()), decls)
            },
            ASTNodeType::FunctionCall(c) => if 0 <= c.function.0 < id {
                match res_expr(ast, parents, decls, c.function.0 as int, scope) {
                    (Err(e), d1) => (Err(e), d1),
                    (Ok(()), d1) => res_args(ast, parents, d1, c.args@, 0, id, scope),
                }
            } else {
                (Ok(()), decls)
            },
            ASTNodeType::Index(ix) => if 0 <= ix.operand.0 < id && 0 <= ix.arg.0 < id {
                match res_expr(ast, parents, decls, ix.operand.0 as int, scope) {
                    (Err(e), d1) => (Err(e), d1),
                    (Ok(()), d1) => res_expr(ast, parents, d1, ix.arg.0 as int, scope),
                }
            } else {
                (Ok(()), decls)
            },
            _ => (Ok(()), decls),
        }
    } else {
        (Ok(()), decls)
    }
}

/// Resolving the arguments of a call from the `k`-th on, in order.
pub open spec fn res_args(
    ast: AST,
    parents: Seq<Option<ScopeId>>,
    decls: Set<(int, usize)>,
    args: Seq<ASTNodeId>,
    k: int,
    bound: int,
    scope: ScopeId,
) -> (Result<(), CompilerError>, Set<(int, usize)>)
    decreases bound, 0int, args.len() - k,
{
    if 0 <= k < args.len() && 0 <= args[k].0 < bound {
        match res_expr(ast, parents, decls, args[k].0 as int, scope) {
            (Err(e), d1) => (Err(e), d1),
            (Ok(()), d1) => res_args(ast, parents, d1, args, k + 1, bound, scope),
        }
    } else {
        (Ok(()), decls)
    }
}

/// Declaring the parameters of a function from the `k`-th on, in its
/// body's scope; a name declared twice there is an error.
pub open spec fn res_params(decls: Set<(int, usize)>, params: Seq<Parameter>, body_scope: ScopeId, k: int) -> (
    Result<(), CompilerError>,
    Set<(int, usize)>,
)
    decreases params.len() - k,
{
    if 0 <= k < params.len() {
        if decls.contains((body_scope.0 as int, params[k].name)) {
            (Err(resolution_error(SemanticError::DuplicateParameterName(params[k].name), params[k].span)), decls)
        } else {
            res_params(decls.insert((body_scope.0 as int, params[k].name)), params, body_scope, k + 1)
        }
    } else {
        (Ok(()), decls)
    }
}

/// Declaring a function's signature: its name in `scope`, which must not
/// declare it already, then its parameters.
pub open spec fn res_signature(decls: Set<(int, usize)>, f: FunctionDefNode, span: SourceSpan, scope: ScopeId) -> (
    Result<(), CompilerError>,
    Set<(int, usize)>,
) {
    if decls.contains((scope.0 as int, f.name)) {
        (Err(resolution_error(SemanticError::DuplicateFunctionName(f.name), span)), decls)
    } else {
        res_params(decls.insert((scope.0 as int, f.name)), f.params@, f.body.scope_id, 0)
    }
}

/// Resolving a statement at node `id`, standing in `scope`. A function
/// definition is left to its block.
pub open spec fn res_statement(ast: AST, parents: Seq<Option<ScopeId>>, decls: Set<(int, usize)>, id: int, scope: ScopeId) -> (
    Result<(), CompilerError>,
    Set<(int, usize)>,
)
    decreases id, 5int, 0int,
{
    if 0 <= id < ast.node_arena@.len() {
        match ast.node_arena@[id].node_type {
            ASTNodeType::FunctionDef(_) => (Ok(()), decls),
            ASTNodeType::ReturnStatement(e) => match e {
                Some(x) => if 0 <= x.0 < id {
                    res_expr(ast, parents, decls, x.0 as int, scope)
                } else {
                    (Ok(()), decls)
                },
                None => (Ok(()), decls),
            },
            ASTNodeType::If(n) => res_if(ast, parents, decls, n, 0, id, scope),
            ASTNodeType::While(n) => if 0 <= n.condition.0 < id {
                match res_expr(ast, parents, decls, n.condition.0 as int, scope) {
                    (Err(e), d1) => (Err(e), d1),
                    (Ok(()), d1) => res_block(ast, parents, d1, n.body.statements@, n.body.scope_id, id),
                }
            } else {
                (Ok(()), decls)
            },
            ASTNodeType::For(n) => if 0 <= n.iterator.0 < id {
                match res_expr(ast, parents, decls, n.iterator.0 as int, scope) {
                    (Err(e), d1) => (Err(e), d1),
                    (Ok(()), d1) => res_block(
                        ast,
                        parents,
                        d1.insert((n.body.scope_id.0 as int, n.item_variable.name)),
                        n.body.statements@,
                        n.body.scope_id,
                        id,
                    ),
                }
            } else {
                (Ok(()), decls)
            },
            _ => res_expr(ast, parents, decls, id, scope),
        }
    } else {
        (Ok(()), decls)
    }
}

/// Resolving the branches of an `if` at node `id` from the `k`-th on: each
/// condition, then the body it guards; then the `else` body.
pub open spec fn res_if(ast: AST, parents: Seq<Option<ScopeId>>, decls: Set<(int, usize)>, n: IfNode, k: int, id: int, scope: ScopeId) -> (
    Result<(), CompilerError>,
    Set<(int, usize)>,
)
    decreases id, 4int, n.condition_blocks@.len() - k,
{
    if 0 <= k < n.condition_blocks@.len() {
        let cb = n.condition_blocks@[k];
        if 0 <= cb.condition.0 < id {
            match res_expr(ast, parents, decls, cb.condition.0 as int, scope) {
                (Err(e), d1) => (Err(e), d1),
                (Ok(()), d1) => match res_block(ast, parents, d1, cb.body.statements@, cb.body.scope_id, id) {
                    (Err(e), d2) => (Err(e), d2),
                    (Ok(()), d2) => res_if(ast, parents, d2, n, k + 1, id, scope),
                },
            }
        } else {
            (Ok(()), decls)
        }
    } else {
        match n.else_body {
            Some(b) => res_block(ast, parents, decls, b.statements@, b.scope_id, id),
            None => (Ok(()), decls),
        }
    }
}

/// Resolving a block of scope `scope` whose statements come before node
/// `owner`: the signature of each function it defines, then each
/// function's body, then its other statements, each in order.
pub open spec fn res_block(
    ast: AST,
    parents: Seq<Option<ScopeId>>,
    decls: Set<(int, usize)>,
    statements: Seq<ASTNodeId>,
    scope: ScopeId,
    owner: int,
) -> (Result<(), CompilerError>, Set<(int, usize)>)
    decreases owner, 3int, 0int,
{
    match res_items(ast, parents, decls, statements, scope, 0, owner) {
        (Err(e), d1) => (Err(e), d1),
        (Ok(()), d1) => match res_item_blocks(ast, parents, d1, statements, 0, owner) {
            (Err(e), d2) => (Err(e), d2),
            (Ok(()), d2) => res_statements(ast, parents, d2, statements, scope, 0, owner),
        },
    }
}

/// Declaring the signatures of the functions among the statements from
/// the `k`-th on.
pub open spec fn res_items(
    ast: AST,
    parents: Seq<Option<ScopeId>>,
    decls: Set<(int, usize)>,
    statements: Seq<ASTNodeId>,
    scope: ScopeId,
    k: int,
    owner: int,
) -> (Result<(), CompilerError>, Set<(int, usize)>)
    decreases owner, 2int, statements.len() - k,
{
    if 0 <= k < statements.len() && 0 <= statements[k].0 < owner {
        let node = ast.node_arena@[statements[k].0 as int];
        match node.node_type {
            ASTNodeType::FunctionDef(f) => match res_signature(decls, f, node.span, scope) {
                (Err(e), d1) => (Err(e), d1),
                (Ok(()), d1) => res_items(ast, parents, d1, statements, scope, k + 1, owner),
            },
            _ => res_items(ast, parents, decls, statements, scope, k + 1, owner),
        }
    } else {
        (Ok(()), decls)
    }
}

/// Resolving the bodies of the functions among the statements from the
/// `k`-th on.
pub open spec fn res_item_blocks(
    ast: AST,
    parents: Seq<Option<ScopeId>>,
    decls: Set<(int, usize)>,
    statements: Seq<ASTNodeId>,
    k: int,
    owner: int,
) -> (Result<(), CompilerError>, Set<(int, usize)>)
    decreases owner, 2int, statements.len() - k,
{
    if 0 <= k < statements.len() && 0 <= statements[k].0 < owner {
        match ast.node_arena@[statements[k].0 as int].node_type {
            ASTNodeType::FunctionDef(f) => match res_block(
                ast,
                parents,
                decls,
                f.body.statements@,
                f.body.scope_id,
                statements[k].0 as int,
            ) {
                (Err(e), d1) => (Err(e), d1),
                (Ok(()), d1) => res_item_blocks(ast, parents, d1, statements, k + 1, owner),
            },
            _ => res_item_blocks(ast, parents, decls, statements, k + 1, owner),
        }
    } else {
        (Ok(()), decls)
    }
}

/// Resolving the statements from the `k`-th on, in order.
pub open spec fn res_statements(
    ast: AST,
    parents: Seq<Option<ScopeId>>,
    decls: Set<(int, usize)>,
    statements: Seq<ASTNodeId>,
    scope: ScopeId,
    k: int,
    owner: int,
) -> (Result<(), CompilerError>, Set<(int, usize)>)
    decreases owner, 2int, statements.len() - k,
{
    if 0 <= k < statements.len() && 0 <= statements[k].0 < owner {
        match res_statement(ast, parents, decls, statements[k].0 as int, scope) {
            (Err(e), d1) => (Err(e), d1),
            (Ok(()), d1) => res_statements(ast, parents, d1, statements, scope, k + 1, owner),
        }
    } else {
        (Ok(()), decls)
    }
}

/// Whether the name resolves in the table is whether it is declared.
pub proof fn lemma_declared(table: SymbolTable, name: usize, id: int)
    requires
        table.wf(),
    ensures
        (resolve_in(table.scopes@, name, id) is Some) == declared(scope_parents(table), declarations(table), name, id),
    decreases id,
{
    if 0 <= id < table.scopes@.len() && !table.scopes@[id].symbols_view().contains_key(name) {
        assert(!declarations(table).contains((id, name)));
        match table.scopes@[id].parent {
            Some(p) => if p.0 < id {
                lemma_declared(table, name, p.0 as int);
            },
            None => {},
        }
    } else if 0 <= id < table.scopes@.len() {
        assert(declarations(table).contains((id, name)));
    }
}

/// Adding declarations keeps the enclosing scopes.
pub proof fn lemma_extend_parents(a: SymbolTable, b: SymbolTable)
    requires
        symbols_extend(a, b),
    ensures
        scope_parents(a) == scope_parents(b),
{
    assert forall|i: int| 0 <= i < scope_parents(a).len() implies scope_parents(a)[i] == scope_parents(b)[i] by {
        assert(b.scopes@[i].parent == a.scopes@[i].parent);
    }
    assert(scope_parents(a) =~= scope_parents(b));
}

/// Declaring `name` in scope `scope`, where it may already be declared.
pub proof fn lemma_declare(before: SymbolTable, after: SymbolTable, scope: int, name: usize)
    requires
        0 <= scope < before.scopes@.len(),
        after.scopes@.len() == before.scopes@.len(),
        forall|i: int| 0 <= i < before.scopes@.len() && i != scope ==> after.scopes@[i] == before.scopes@[i],
        after.scopes@[scope].symbols_view().dom() == before.scopes@[scope].symbols_view().dom().insert(name),
    ensures
        declarations(after) == declarations(before).insert((scope, name)),
{
    assert forall|k: (int, usize)| declarations(after).contains(k) == declarations(before).insert((scope, name)).contains(k) by {
        if 0 <= k.0 < before.scopes@.len() && k.0 != scope {
            assert(after.scopes@[k.0] == before.scopes@[k.0]);
        }
        if k.0 == scope {
            assert(after.scopes@[scope].symbols_view().dom().contains(k.1) == after.scopes@[scope].symbols_view().contains_key(k.1));
            assert(before.scopes@[scope].symbols_view().dom().contains(k.1) == before.scopes@[scope].symbols_view().contains_key(k.1));
        }
    }
    assert(declarations(after) =~= declarations(before).insert((scope, name)));
}

/// A successful insertion, or none, only adds a declaration.
proof fn lemma_insert_extends(before: SymbolTable, after: SymbolTable, scope: int, name: usize, inserted: bool)
    requires
        before.wf(),
        after.wf(),
        0 <= scope < before.scopes@.len(),
        after.scopes@.len() == before.scopes@.len(),
        after.next_symbol_id >= before.next_symbol_id,
        forall|i: int| 0 <= i < before.scopes@.len() && i != scope ==> after.scopes@[i] == before.scopes@[i],
        after.scopes@[scope].parent == before.scopes@[scope].parent,
        after.scopes@[scope].function == before.scopes@[scope].function,
        inserted ==> !before.scopes@[scope].symbols_view().contains_key(name)
            && exists|s: crate::compiler_context::symbol_table::symbol::Symbol|
            s.data_type_id is None && after.scopes@[scope].symbols_view() == before.scopes@[scope].symbols_view().insert(name, s),
        !inserted ==> after.scopes@ == before.scopes@,
    ensures
        symbols_extend(before, after),
{
    if inserted {
        let s = choose|s: crate::compiler_context::symbol_table::symbol::Symbol|
            s.data_type_id is None && after.scopes@[scope].symbols_view() == before.scopes@[scope].symbols_view().insert(name, s);
        assert forall|i: int| 0 <= i < before.scopes@.len() implies {
            &&& (#[trigger] after.scopes@[i]).parent == before.scopes@[i].parent
            &&& after.scopes@[i].function == before.scopes@[i].function
            &&& forall|k: usize| before.scopes@[i].symbols_view().contains_key(k) ==> {
                &&& (#[trigger] after.scopes@[i].symbols_view().contains_key(k))
                &&& after.scopes@[i].symbols_view()[k] == before.scopes@[i].symbols_view()[k]
            }
            &&& forall|k: usize| #[trigger] after.scopes@[i].symbols_view().contains_key(k)
                && !before.scopes@[i].symbols_view().contains_key(k) ==> after.scopes@[i].symbols_view()[k].data_type_id is None
        } by {
            if i == scope {
                assert forall|k: usize| before.scopes@[i].symbols_view().contains_key(k) implies {
                    &&& (#[trigger] after.scopes@[i].symbols_view().contains_key(k))
                    &&& after.scopes@[i].symbols_view()[k] == before.scopes@[i].symbols_view()[k]
                } by {
                    assert(k != name);
                }
            }
        }
    }
}

/// Checks that every name used is declared where it is used, declaring
/// functions, parameters, assigned variables and loop variables on the way.
pub struct NameResolver<'a> {
    pub ast: &'a AST,
}

impl<'a> NameResolver<'a> {
    /// What every step of the resolver needs: a well-formed AST whose scopes
    /// are those of the table.
    pub open spec fn ready(&self, table: SymbolTable) -> bool {
        &&& self.ast.wf()
        &&& table.wf()
        &&& self.ast.scopes_below(table.scopes@.len() as int)
    }

    pub fn new(ast: &'a AST) -> (r: Self)
        ensures
            r.ast == ast,
    {
        Self { ast }
    }

    /// A variable use: its name must denote a symbol from the scope.
    fn resolve_variable(&self, table: &SymbolTable, var: &VariableNode, span: SourceSpan, scope_id: ScopeId) -> (r: Result<(), CompilerError>)
        requires
            table.wf(),
            scope_id.0 < table.scopes@.len(),
        ensures
            r == if table.resolve(var.name, scope_id) is Some {
                Ok::<(), CompilerError>(())
            } else {
                Err::<(), CompilerError>(
                    CompilerError { error_type: ErrorKind::Semantic(SemanticError::UndefinedVariable(var.name)), span },
                )
            },
    {
        if table.contains(var.name, scope_id) {
            Ok(())
        } else {
            Err(SemanticError::UndefinedVariable(var.name).at(span))
        }
    }

    /// A binary operation. An assignment to a variable declares the
    /// variable in the scope, unless the scope already declares it, after
    /// the assigned value is resolved.
    fn resolve_binary_operator(&self, table: &mut SymbolTable, op: &BinaryOperatorNode, id: ASTNodeId, scope_id: ScopeId) -> (r: Result<(), CompilerError>)
        requires
            self.ready(*old(table)),
            scope_id.0 < old(table).scopes@.len(),
            op.left.0 < id.0,
            op.right.0 < id.0,
            id.0 < self.ast.node_arena@.len(),
            self.ast.node_arena@[id.0 as int].node_type == ASTNodeType::BinaryOperator(*op),
        ensures
            (r, declarations(*final(table))) == res_expr(*self.ast, scope_parents(*old(table)), declarations(*old(table)), id.0 as int, scope_id),
            symbols_extend(*old(table), *final(table)),
            r matches Err(e) ==> is_resolution_error(e),
            r is Ok ==> expr_resolves(*self.ast, *final(table), id.0 as int, scope_id),
        decreases id.0, 2nat,
    {
        if op.op_type.precedence_group() == OperatorPrecedenceGroup::Assign {
            self.resolve_expression(table, op.right, scope_id)?;
            let left_node = self.ast.lookup(op.left);
            match &left_node.node_type {
                ASTNodeType::Variable(var) => {
                    let ghost before = *table;
                    let inserted = table.insert(var.name, left_node.span, scope_id);
                    proof {
                        lemma_insert_extends(before, *table, scope_id.0 as int, var.name, inserted);
                        lemma_symbols_extend_trans(*old(table), before, *table);
                        lemma_expr_resolves_monotonic(*self.ast, before, *table, op.right.0 as int, scope_id);
                        assert(table.scopes@[scope_id.0 as int].symbols_view().dom() =~= before.scopes@[scope_id.0 as int].symbols_view().dom().insert(var.name));
                        lemma_declare(before, *table, scope_id.0 as int, var.name);
                        lemma_extend_parents(*old(table), before);
                        assert(table.resolve(var.name, scope_id) is Some);
                        assert(expr_resolves(*self.ast, *table, op.left.0 as int, scope_id));
                    }
                },
                _ => {
                    let ghost before = *table;
                    proof {
                        lemma_extend_parents(*old(table), *table);
                    }
                    let res = self.resolve_expression(table, op.left, scope_id);
                    proof {
                        lemma_symbols_extend_trans(*old(table), before, *table);
                        if res is Ok {
                            lemma_expr_resolves_monotonic(*self.ast, before, *table, op.right.0 as int, scope_id);
                        }
                    }
                    res?;
                },
            }
        } else {
            self.resolve_expression(table, op.left, scope_id)?;
            let ghost before = *table;
            proof {
                lemma_extend_parents(*old(table), *table);
            }
            let res = self.resolve_expression(table, op.right, scope_id);
            proof {
                lemma_symbols_extend_trans(*old(table), before, *table);
                if res is Ok {
                    lemma_expr_resolves_monotonic(*self.ast, before, *table, op.left.0 as int, scope_id);
                }
            }
            res?;
        }
        Ok(())
    }

    /// A call: the called expression, then each argument in order.
    fn resolve_function_call(&self, table: &mut SymbolTable, call: &FunctionCallNode, id: ASTNodeId, scope_id: ScopeId) -> (r: Result<(), CompilerError>)
        requires
            self.ready(*old(table)),
            scope_id.0 < old(table).scopes@.len(),
            call.function.0 < id.0 < self.ast.node_arena@.len(),
            forall|i: int| 0 <= i < call.args@.len() ==> (#[trigger] call.args@[i]).0 < id.0,
            self.ast.node_arena@[id.0 as int].node_type == ASTNodeType::FunctionCall(*call),
        ensures
            (r, declarations(*final(table))) == res_expr(*self.ast, scope_parents(*old(table)), declarations(*old(table)), id.0 as int, scope_id),
            symbols_extend(*old(table), *final(table)),
            r matches Err(e) ==> is_resolution_error(e),
            r is Ok ==> expr_resolves(*self.ast, *final(table), id.0 as int, scope_id),
        decreases id.0, 2nat,
    {
        proof {
            lemma_symbols_extend_trans(*old(table), *old(table), *old(table));
        }
        let ghost before = *table;
        let res = self.resolve_expression(table, call.function, scope_id);
        proof {
            lemma_symbols_extend_trans(*old(table), before, *table);
        }
        res?;
        proof {
            lemma_extend_parents(*old(table), *table);
        }
        let mut i: usize = 0;
        while i < call.args.len()
            invariant
                scope_parents(*table) == scope_parents(*old(table)),
                res_expr(*self.ast, scope_parents(*old(table)), declarations(*old(table)), id.0 as int, scope_id)
                    == res_args(*self.ast, scope_parents(*old(table)), declarations(*table), call.args@, i as int, id.0 as int, scope_id),
                self.ready(*table),
                scope_id.0 < table.scopes@.len(),
                symbols_extend(*old(table), *table),
                forall|k: int| 0 <= k < call.args@.len() ==> (#[trigger] call.args@[k]).0 < id.0,
                id.0 < self.ast.node_arena@.len(),
                i <= call.args@.len(),
                expr_resolves(*self.ast, *table, call.function.0 as int, scope_id),
                forall|k: int| 0 <= k < i ==> expr_resolves(*self.ast, *table, (#[trigger] call.args@[k]).0 as int, scope_id),
            decreases call.args@.len() - i,
        {
            let ghost before = *table;
            let res = self.resolve_expression(table, call.args[i], scope_id);
            proof {
                lemma_symbols_extend_trans(*old(table), before, *table);
                lemma_extend_parents(*old(table), *table);
                if res is Ok {
                    lemma_expr_resolves_monotonic(*self.ast, before, *table, call.function.0 as int, scope_id);
                    assert forall|k: int| 0 <= k < i + 1 implies expr_resolves(*self.ast, *table, (#[trigger] call.args@[k]).0 as int, scope_id) by {
                        if k < i {
                            lemma_expr_resolves_monotonic(*self.ast, before, *table, call.args@[k].0 as int, scope_id);
                        }
                    }
                }
            }
            res?;
            i += 1;
        }
        Ok(())
    }

    /// An index expression: the indexed operand, then the index.
    fn resolve_index(&self, table: &mut SymbolTable, index: &IndexNode, id: ASTNodeId, scope_id: ScopeId) -> (r: Result<(), CompilerError>)
        requires
            self.ready(*old(table)),
            scope_id.0 < old(table).scopes@.len(),
            index.operand.0 < id.0 < self.ast.node_arena@.len(),
            index.arg.0 < id.0,
            self.ast.node_arena@[id.0 as int].node_type == ASTNodeType::Index(*index),
        ensures
            (r, declarations(*final(table))) == res_expr(*self.ast, scope_parents(*old(table)), declarations(*old(table)), id.0 as int, scope_id),
            symbols_extend(*old(table), *final(table)),
            r matches Err(e) ==> is_resolution_error(e),
            r is Ok ==> expr_resolves(*self.ast, *final(table), id.0 as int, scope_id),
        decreases id.0, 2nat,
    {
        proof {
            lemma_symbols_extend_trans(*old(table), *old(table), *old(table));
        }
        let ghost before = *table;
        let res = self.resolve_expression(table, index.operand, scope_id);
        proof {
            lemma_symbols_extend_trans(*old(table), before, *table);
        }
        res?;
        let ghost before = *table;
        proof {
            lemma_extend_parents(*old(table), *table);
        }
        let res = self.resolve_expression(table, index.arg, scope_id);
        proof {
            lemma_symbols_extend_trans(*old(table), before, *table);
            if res is Ok {
                lemma_expr_resolves_monotonic(*self.ast, before, *table, index.operand.0 as int, scope_id);
            }
        }
        res?;
        Ok(())
    }

    /// An expression: every variable it uses, outside the left-hand side of
    /// an assignment to a variable, must be declared. Member accesses are
    /// not resolved.
    fn resolve_expression(&self, table: &mut SymbolTable, expr_id: ASTNodeId, scope_id: ScopeId) -> (r: Result<(), CompilerError>)
        requires
            self.ready(*old(table)),
            scope_id.0 < old(table).scopes@.len(),
            expr_id.0 < self.ast.node_arena@.len(),
        ensures
            (r, declarations(*final(table))) == res_expr(*self.ast, scope_parents(*old(table)), declarations(*old(table)), expr_id.0 as int, scope_id),
            symbols_extend(*old(table), *final(table)),
            r matches Err(e) ==> is_resolution_error(e),
            r is Ok ==> expr_resolves(*self.ast, *final(table), expr_id.0 as int, scope_id),
            self.ast.node_arena@[expr_id.0 as int].node_type matches ASTNodeType::Variable(v) ==> r == if old(table).resolve(
                v.name,
                scope_id,
            ) is Some {
                Ok::<(), CompilerError>(())
            } else {
                Err::<(), CompilerError>(
                    CompilerError {
                        error_type: ErrorKind::Semantic(SemanticError::UndefinedVariable(v.name)),
                        span: self.ast.node_arena@[expr_id.0 as int].span,
                    },
                )
            },
        decreases expr_id.0, 3nat,
    {
        proof {
            lemma_symbols_extend_trans(*old(table), *old(table), *old(table));
            assert(children_below(self.ast.node_arena@[expr_id.0 as int].node_type, expr_id.0 as int));
        }
        let expr_node = self.ast.lookup(expr_id);
        match &expr_node.node_type {
            ASTNodeType::Variable(var_node) => {
                proof {
                    lemma_declared(*table, var_node.name, scope_id.0 as int);
                }
                self.resolve_variable(table, var_node, expr_node.span, scope_id)
            },
            ASTNodeType::UnaryOperator(op) => self.resolve_expression(table, op.operand_id, scope_id),
            ASTNodeType::BinaryOperator(op) => self.resolve_binary_operator(table, op, expr_id, scope_id),
            ASTNodeType::FunctionCall(call_node) => self.resolve_function_call(table, call_node, expr_id, scope_id),
            ASTNodeType::Index(index_node) => self.resolve_index(table, index_node, expr_id, scope_id),
            _ => Ok(()),
        }
    }

    /// The declarations of a function in scope `scope_id`: its name there,
    /// then each parameter, by position, in the scope of its body.
    fn resolve_function_signature(&self, table: &mut SymbolTable, func_def_node: &FunctionDefNode, span: SourceSpan, scope_id: ScopeId) -> (r: Result<(), CompilerError>)
        requires
            self.ready(*old(table)),
            scope_id.0 < old(table).scopes@.len(),
            func_def_node.body.scope_id.0 < old(table).scopes@.len(),
        ensures
            (r, declarations(*final(table))) == res_signature(declarations(*old(table)), *func_def_node, span, scope_id),
            symbols_extend(*old(table), *final(table)),
            r matches Err(e) ==> is_resolution_error(e),
            old(table).scopes@[scope_id.0 as int].symbols_view().contains_key(func_def_node.name) ==> r == Err::<
                (),
                CompilerError,
            >(
                CompilerError {
                    error_type: ErrorKind::Semantic(SemanticError::DuplicateFunctionName(func_def_node.name)),
                    span,
                },
            ),
            r is Ok ==> final(table).resolve(func_def_node.name, scope_id) is Some && forall|k: int|
                0 <= k < func_def_node.params@.len() ==> final(table).resolve((#[trigger] func_def_node.params@[k]).name, func_def_node.body.scope_id) is Some,
    {
        let ghost before = *table;
        proof {
            assert(declarations(before).contains((scope_id.0 as int, func_def_node.name)) == before.scopes@[scope_id.0 as int].symbols_view().contains_key(func_def_node.name));
        }
        if !table.insert(func_def_node.name, span, scope_id) {
            return Err(SemanticError::DuplicateFunctionName(func_def_node.name).at(span));
        }
        proof {
            assert(table.scopes@[scope_id.0 as int].symbols_view().dom() =~= before.scopes@[scope_id.0 as int].symbols_view().dom().insert(func_def_node.name));
            lemma_declare(before, *table, scope_id.0 as int, func_def_node.name);
            lemma_insert_extends(before, *table, scope_id.0 as int, func_def_node.name, true);
        }
        let body_scope = func_def_node.body.scope_id;
        let mut i: usize = 0;
        while i < func_def_node.params.len()
            invariant
                self.ready(*table),
                body_scope.0 < table.scopes@.len(),
                body_scope == func_def_node.body.scope_id,
                symbols_extend(*old(table), *table),
                !old(table).scopes@[scope_id.0 as int].symbols_view().contains_key(func_def_node.name),
                scope_id.0 < old(table).scopes@.len(),
                i <= func_def_node.params@.len(),
                res_signature(declarations(*old(table)), *func_def_node, span, scope_id) == res_params(declarations(*table), func_def_node.params@, body_scope, i as int),
                table.resolve(func_def_node.name, scope_id) is Some,
                forall|k: int| 0 <= k < i ==> table.resolve((#[trigger] func_def_node.params@[k]).name, body_scope) is Some,
            decreases func_def_node.params@.len() - i,
        {
            let param = &func_def_node.params[i];
            let ghost mid = *table;
            proof {
                assert(declarations(mid).contains((body_scope.0 as int, param.name)) == mid.scopes@[body_scope.0 as int].symbols_view().contains_key(param.name));
            }
            if !table.insert_function_param(param.name, i, param.span, body_scope) {
                return Err(SemanticError::DuplicateParameterName(param.name).at(param.span));
            }
            proof {
                lemma_insert_extends(mid, *table, body_scope.0 as int, param.name, true);
                assert(table.scopes@[body_scope.0 as int].symbols_view().dom() =~= mid.scopes@[body_scope.0 as int].symbols_view().dom().insert(param.name));
                lemma_declare(mid, *table, body_scope.0 as int, param.name);
                lemma_symbols_extend_trans(*old(table), mid, *table);
                lemma_resolve_monotonic(mid, *table, func_def_node.name, scope_id.0 as int);
                assert forall|k: int| 0 <= k < i + 1 implies table.resolve((#[trigger] func_def_node.params@[k]).name, body_scope) is Some by {
                    if k < i {
                        lemma_resolve_monotonic(mid, *table, func_def_node.params@[k].name, body_scope.0 as int);
                    }
                }
            }
            i += 1;
        }
        Ok(())
    }

    /// An `if`: each condition, then the body it guards; then the `else`
    /// body.
    fn resolve_if(&self, table: &mut SymbolTable, if_node: &IfNode, id: ASTNodeId, scope_id: ScopeId) -> (r: Result<(), CompilerError>)
        requires
            self.ready(*old(table)),
            scope_id.0 < old(table).scopes@.len(),
            id.0 < self.ast.node_arena@.len(),
            children_below(ASTNodeType::If(*if_node), id.0 as int),
            block_scopes_below(ASTNodeType::If(*if_node), old(table).scopes@.len() as int),
            self.ast.node_arena@[id.0 as int].node_type == ASTNodeType::If(*if_node),
        ensures
            (r, declarations(*final(table))) == res_statement(*self.ast, scope_parents(*old(table)), declarations(*old(table)), id.0 as int, scope_id),
            symbols_extend(*old(table), *final(table)),
            r matches Err(e) ==> is_resolution_error(e),
            r is Ok ==> statement_resolves(*self.ast, *final(table), id.0 as int, scope_id),
        decreases id.0, 3nat,
    {
        proof {
            lemma_symbols_extend_trans(*old(table), *old(table), *old(table));
        }
        let mut i: usize = 0;
        while i < if_node.condition_blocks.len()
            invariant
                self.ready(*table),
                scope_id.0 < table.scopes@.len(),
                symbols_extend(*old(table), *table),
                children_below(ASTNodeType::If(*if_node), id.0 as int),
                block_scopes_below(ASTNodeType::If(*if_node), table.scopes@.len() as int),
                id.0 < self.ast.node_arena@.len(),
                i <= if_node.condition_blocks@.len(),
                scope_parents(*table) == scope_parents(*old(table)),
                res_statement(*self.ast, scope_parents(*old(table)), declarations(*old(table)), id.0 as int, scope_id) == res_if(*self.ast, scope_parents(*old(table)), declarations(*table), *if_node, i as int, id.0 as int, scope_id),
                forall|k: int| 0 <= k < i ==> expr_resolves(*self.ast, *table, (#[trigger] if_node.condition_blocks@[k]).condition.0 as int, scope_id)
                    && block_resolves(*self.ast, *table, if_node.condition_blocks@[k].body.statements@, if_node.condition_blocks@[k].body.scope_id, id.0 as int),
            decreases if_node.condition_blocks@.len() - i,
        {
            let cond_block = &if_node.condition_blocks[i];
            let ghost before = *table;
            let res = self.resolve_expression(table, cond_block.condition, scope_id);
            proof {
                lemma_symbols_extend_trans(*old(table), before, *table);
                lemma_extend_parents(*old(table), *table);
                if res is Ok {
                    assert forall|k: int| 0 <= k < i implies expr_resolves(*self.ast, *table, (#[trigger] if_node.condition_blocks@[k]).condition.0 as int, scope_id)
                        && block_resolves(*self.ast, *table, if_node.condition_blocks@[k].body.statements@, if_node.condition_blocks@[k].body.scope_id, id.0 as int) by {
                        lemma_expr_resolves_monotonic(*self.ast, before, *table, if_node.condition_blocks@[k].condition.0 as int, scope_id);
                        lemma_block_resolves_monotonic(*self.ast, before, *table, if_node.condition_blocks@[k].body.statements@, if_node.condition_blocks@[k].body.scope_id, id.0 as int);
                    }
                }
            }
            res?;
            let ghost before = *table;
            let res = self.resolve_block(table, &cond_block.body, id);
            proof {
                lemma_symbols_extend_trans(*old(table), before, *table);
                lemma_extend_parents(*old(table), *table);
                if res is Ok {
                    assert forall|k: int| 0 <= k < i + 1 implies expr_resolves(*self.ast, *table, (#[trigger] if_node.condition_blocks@[k]).condition.0 as int, scope_id)
                        && block_resolves(*self.ast, *table, if_node.condition_blocks@[k].body.statements@, if_node.condition_blocks@[k].body.scope_id, id.0 as int) by {
                        lemma_expr_resolves_monotonic(*self.ast, before, *table, if_node.condition_blocks@[k].condition.0 as int, scope_id);
                        if k < i {
                            lemma_block_resolves_monotonic(*self.ast, before, *table, if_node.condition_blocks@[k].body.statements@, if_node.condition_blocks@[k].body.scope_id, id.0 as int);
                        }
                    }
                }
            }
            res?;
            i += 1;
        }
        if let Some(body) = &if_node.else_body {
            let ghost before = *table;
            let res = self.resolve_block(table, body, id);
            proof {
                lemma_symbols_extend_trans(*old(table), before, *table);
                if res is Ok {
                    assert forall|k: int| 0 <= k < if_node.condition_blocks@.len() implies expr_resolves(*self.ast, *table, (#[trigger] if_node.condition_blocks@[k]).condition.0 as int, scope_id)
                        && block_resolves(*self.ast, *table, if_node.condition_blocks@[k].body.statements@, if_node.condition_blocks@[k].body.scope_id, id.0 as int) by {
                        lemma_expr_resolves_monotonic(*self.ast, before, *table, if_node.condition_blocks@[k].condition.0 as int, scope_id);
                        lemma_block_resolves_monotonic(*self.ast, before, *table, if_node.condition_blocks@[k].body.statements@, if_node.condition_blocks@[k].body.scope_id, id.0 as int);
                    }
                }
            }
            res?;
        }
        Ok(())
    }

    /// A `while`: its condition, then its body.
    fn resolve_while(&self, table: &mut SymbolTable, while_node: &WhileNode, id: ASTNodeId, scope_id: ScopeId) -> (r: Result<(), CompilerError>)
        requires
            self.ast.node_arena@[id.0 as int].node_type == ASTNodeType::While(*while_node),
            self.ready(*old(table)),
            scope_id.0 < old(table).scopes@.len(),
            id.0 < self.ast.node_arena@.len(),
            children_below(ASTNodeType::While(*while_node), id.0 as int),
            block_scopes_below(ASTNodeType::While(*while_node), old(table).scopes@.len() as int),
            self.ast.node_arena@[id.0 as int].node_type == ASTNodeType::While(*while_node),
        ensures
            (r, declarations(*final(table))) == res_statement(*self.ast, scope_parents(*old(table)), declarations(*old(table)), id.0 as int, scope_id),
            symbols_extend(*old(table), *final(table)),
            r matches Err(e) ==> is_resolution_error(e),
            r is Ok ==> statement_resolves(*self.ast, *final(table), id.0 as int, scope_id),
        decreases id.0, 3nat,
    {
        proof {
            lemma_symbols_extend_trans(*old(table), *old(table), *old(table));
        }
        let ghost before = *table;
        let res = self.resolve_expression(table, while_node.condition, scope_id);
        proof {
            lemma_symbols_extend_trans(*old(table), before, *table);
        }
        res?;
        let ghost before = *table;
        proof {
            lemma_extend_parents(*old(table), *table);
        }
        let res = self.resolve_block(table, &while_node.body, id);
        proof {
            lemma_symbols_extend_trans(*old(table), before, *table);
            if res is Ok {
                lemma_expr_resolves_monotonic(*self.ast, before, *table, while_node.condition.0 as int, scope_id);
            }
        }
        res?;
        Ok(())
    }

    /// A `for`: the iterated expression, then the loop variable is declared
    /// in the body's scope, then the body.
    fn resolve_for(&self, table: &mut SymbolTable, for_node: &ForNode, id: ASTNodeId, scope_id: ScopeId) -> (r: Result<(), CompilerError>)
        requires
            self.ast.node_arena@[id.0 as int].node_type == ASTNodeType::For(*for_node),
            self.ready(*old(table)),
            scope_id.0 < old(table).scopes@.len(),
            id.0 < self.ast.node_arena@.len(),
            children_below(ASTNodeType::For(*for_node), id.0 as int),
            block_scopes_below(ASTNodeType::For(*for_node), old(table).scopes@.len() as int),
            self.ast.node_arena@[id.0 as int].node_type == ASTNodeType::For(*for_node),
        ensures
            (r, declarations(*final(table))) == res_statement(*self.ast, scope_parents(*old(table)), declarations(*old(table)), id.0 as int, scope_id),
            symbols_extend(*old(table), *final(table)),
            r matches Err(e) ==> is_resolution_error(e),
            r is Ok ==> statement_resolves(*self.ast, *final(table), id.0 as int, scope_id),
        decreases id.0, 3nat,
    {
        proof {
            lemma_symbols_extend_trans(*old(table), *old(table), *old(table));
        }
        let ghost before = *table;
        let res = self.resolve_expression(table, for_node.iterator, scope_id);
        proof {
            lemma_symbols_extend_trans(*old(table), before, *table);
        }
        res?;
        let item_var = for_node.item_variable;
        let body_scope = for_node.body.scope_id;
        let ghost before = *table;
        let inserted = table.insert(item_var.name, item_var.span, body_scope);
        proof {
            assert(table.scopes@[body_scope.0 as int].symbols_view().dom() =~= before.scopes@[body_scope.0 as int].symbols_view().dom().insert(item_var.name));
            lemma_declare(before, *table, body_scope.0 as int, item_var.name);
            lemma_extend_parents(*old(table), before);
            lemma_insert_extends(before, *table, body_scope.0 as int, item_var.name, inserted);
            lemma_symbols_extend_trans(*old(table), before, *table);
            lemma_expr_resolves_monotonic(*self.ast, before, *table, for_node.iterator.0 as int, scope_id);
        }
        let ghost before = *table;
        proof {
            lemma_extend_parents(*old(table), *table);
        }
        let res = self.resolve_block(table, &for_node.body, id);
        proof {
            lemma_symbols_extend_trans(*old(table), before, *table);
            if res is Ok {
                lemma_expr_resolves_monotonic(*self.ast, before, *table, for_node.iterator.0 as int, scope_id);
                lemma_resolve_monotonic(before, *table, item_var.name, body_scope.0 as int);
            }
        }
        res?;
        Ok(())
    }

    /// A `return`: its value, if it has one.
    fn resolve_return_statement(&self, table: &mut SymbolTable, expr_id_opt: Option<ASTNodeId>, id: ASTNodeId, scope_id: ScopeId) -> (r: Result<(), CompilerError>)
        requires
            self.ready(*old(table)),
            scope_id.0 < old(table).scopes@.len(),
            id.0 < self.ast.node_arena@.len(),
            expr_id_opt matches Some(e) ==> e.0 < id.0,
        ensures
            expr_id_opt matches Some(x) ==> (r, declarations(*final(table))) == res_expr(*self.ast, scope_parents(*old(table)), declarations(*old(table)), x.0 as int, scope_id),
            symbols_extend(*old(table), *final(table)),
            r matches Err(e) ==> is_resolution_error(e),
            expr_id_opt is None ==> r == Ok::<(), CompilerError>(()) && *final(table) == *old(table),
            r is Ok ==> (expr_id_opt matches Some(x) ==> expr_resolves(*self.ast, *final(table), x.0 as int, scope_id)),
        decreases id.0, 3nat,
    {
        proof {
            lemma_symbols_extend_trans(*old(table), *old(table), *old(table));
        }
        if let Some(expr_id) = expr_id_opt {
            self.resolve_expression(table, expr_id, scope_id)?;
        }
        Ok(())
    }

    /// A statement other than a function definition.
    fn resolve_curr_statement(&self, table: &mut SymbolTable, statement_id: ASTNodeId, scope_id: ScopeId) -> (r: Result<(), CompilerError>)
        requires
            self.ready(*old(table)),
            scope_id.0 < old(table).scopes@.len(),
            statement_id.0 < self.ast.node_arena@.len(),
        ensures
            (r, declarations(*final(table))) == res_statement(*self.ast, scope_parents(*old(table)), declarations(*old(table)), statement_id.0 as int, scope_id),
            symbols_extend(*old(table), *final(table)),
            r matches Err(e) ==> is_resolution_error(e),
            r is Ok && !(self.ast.node_arena@[statement_id.0 as int].node_type is FunctionDef) ==> statement_resolves(
                *self.ast,
                *final(table),
                statement_id.0 as int,
                scope_id,
            ),
        decreases statement_id.0, 4nat,
    {
        proof {
            lemma_symbols_extend_trans(*old(table), *old(table), *old(table));
            assert(children_below(self.ast.node_arena@[statement_id.0 as int].node_type, statement_id.0 as int));
            assert(block_scopes_below(self.ast.node_arena@[statement_id.0 as int].node_type, table.scopes@.len() as int));
        }
        let node = self.ast.lookup(statement_id);
        match &node.node_type {
            ASTNodeType::FunctionDef(_) => Ok(()),
            ASTNodeType::ReturnStatement(expr_id) => {
                self.resolve_return_statement(table, *expr_id, statement_id, scope_id)
            },
            ASTNodeType::If(if_node) => self.resolve_if(table, if_node, statement_id, scope_id),
            ASTNodeType::While(while_node) => self.resolve_while(table, while_node, statement_id, scope_id),
            ASTNodeType::For(for_node) => self.resolve_for(table, for_node, statement_id, scope_id),
            _ => self.resolve_expression(table, statement_id, scope_id),
        }
    }

    /// The statements of a block other than function definitions, in order.
    fn resolve_statements(&self, table: &mut SymbolTable, block: &Block, owner: ASTNodeId) -> (r: Result<(), CompilerError>)
        requires
            self.ready(*old(table)),
            block.scope_id.0 < old(table).scopes@.len(),
            block.ids_below(owner.0 as int),
            owner.0 <= self.ast.node_arena@.len(),
        ensures
            (r, declarations(*final(table))) == res_statements(*self.ast, scope_parents(*old(table)), declarations(*old(table)), block.statements@, block.scope_id, 0, owner.0 as int),
            block.statements@.len() == 0 ==> r is Ok && *final(table) == *old(table),
            symbols_extend(*old(table), *final(table)),
            r matches Err(e) ==> is_resolution_error(e),
            r is Ok ==> forall|k: int| 0 <= k < block.statements@.len() && !(self.ast.node_arena@[(#[trigger] block.statements@[k]).0 as int].node_type is FunctionDef)
                ==> statement_resolves(*self.ast, *final(table), block.statements@[k].0 as int, block.scope_id),
        decreases owner.0, 1nat,
    {
        proof {
            lemma_symbols_extend_trans(*old(table), *old(table), *old(table));
        }
        let mut i: usize = 0;
        while i < block.statements.len()
            invariant
                block.statements@.len() == 0 ==> *table == *old(table),
                self.ready(*table),
                block.scope_id.0 < table.scopes@.len(),
                symbols_extend(*old(table), *table),
                block.ids_below(owner.0 as int),
                owner.0 <= self.ast.node_arena@.len(),
                i <= block.statements@.len(),
                scope_parents(*table) == scope_parents(*old(table)),
                res_statements(*self.ast, scope_parents(*old(table)), declarations(*old(table)), block.statements@, block.scope_id, 0, owner.0 as int) == res_statements(*self.ast, scope_parents(*old(table)), declarations(*table), block.statements@, block.scope_id, i as int, owner.0 as int),
                forall|k: int| 0 <= k < i && !(self.ast.node_arena@[(#[trigger] block.statements@[k]).0 as int].node_type is FunctionDef)
                    ==> statement_resolves(*self.ast, *table, block.statements@[k].0 as int, block.scope_id),
            decreases block.statements@.len() - i,
        {
            let ghost before = *table;
            proof {
                lemma_extend_parents(*old(table), *table);
            }
            let res = self.resolve_curr_statement(table, block.statements[i], block.scope_id);
            proof {
                lemma_symbols_extend_trans(*old(table), before, *table);
                lemma_extend_parents(*old(table), *table);
                if res is Ok {
                    assert forall|k: int| 0 <= k < i + 1 && !(self.ast.node_arena@[(#[trigger] block.statements@[k]).0 as int].node_type is FunctionDef)
                        implies statement_resolves(*self.ast, *table, block.statements@[k].0 as int, block.scope_id) by {
                        if k < i {
                            lemma_statement_resolves_monotonic(*self.ast, before, *table, block.statements@[k].0 as int, block.scope_id);
                        }
                    }
                }
            }
            res?;
            i += 1;
        }
        Ok(())
    }

    /// The signature of each function the block defines, in order.
    fn resolve_items(&self, table: &mut SymbolTable, block: &Block, owner: ASTNodeId) -> (r: Result<(), CompilerError>)
        requires
            self.ready(*old(table)),
            block.scope_id.0 < old(table).scopes@.len(),
            block.ids_below(owner.0 as int),
            owner.0 <= self.ast.node_arena@.len(),
        ensures
            (r, declarations(*final(table))) == res_items(*self.ast, scope_parents(*old(table)), declarations(*old(table)), block.statements@, block.scope_id, 0, owner.0 as int),
            block.statements@.len() == 0 ==> r is Ok && *final(table) == *old(table),
            symbols_extend(*old(table), *final(table)),
            r matches Err(e) ==> is_resolution_error(e),
            r is Ok ==> forall|k: int| 0 <= k < block.statements@.len() ==> signature_resolves(
                *self.ast,
                *final(table),
                (#[trigger] block.statements@[k]).0 as int,
                block.scope_id,
            ),
    {
        proof {
            lemma_symbols_extend_trans(*old(table), *old(table), *old(table));
        }
        let mut i: usize = 0;
        while i < block.statements.len()
            invariant
                block.statements@.len() == 0 ==> *table == *old(table),
                self.ready(*table),
                block.scope_id.0 < table.scopes@.len(),
                symbols_extend(*old(table), *table),
                block.ids_below(owner.0 as int),
                owner.0 <= self.ast.node_arena@.len(),
                i <= block.statements@.len(),
                scope_parents(*table) == scope_parents(*old(table)),
                res_items(*self.ast, scope_parents(*old(table)), declarations(*old(table)), block.statements@, block.scope_id, 0, owner.0 as int) == res_items(*self.ast, scope_parents(*old(table)), declarations(*table), block.statements@, block.scope_id, i as int, owner.0 as int),
                forall|k: int| 0 <= k < i ==> signature_resolves(*self.ast, *table, (#[trigger] block.statements@[k]).0 as int, block.scope_id),
            decreases block.statements@.len() - i,
        {
            let id = block.statements[i];
            let node = self.ast.lookup(id);
            if let ASTNodeType::FunctionDef(func_def_node) = &node.node_type {
                proof {
                    assert(block_scopes_below(self.ast.node_arena@[id.0 as int].node_type, table.scopes@.len() as int));
                }
                let ghost before = *table;
                proof {
                    lemma_extend_parents(*old(table), *table);
                }
                let res = self.resolve_function_signature(table, func_def_node, node.span, block.scope_id);
                proof {
                    lemma_symbols_extend_trans(*old(table), before, *table);
                    lemma_extend_parents(*old(table), *table);
                    if res is Ok {
                        assert forall|k: int| 0 <= k < i implies signature_resolves(*self.ast, *table, (#[trigger] block.statements@[k]).0 as int, block.scope_id) by {
                            lemma_signature_resolves_monotonic(*self.ast, before, *table, block.statements@[k].0 as int, block.scope_id);
                        }
                        assert(signature_resolves(*self.ast, *table, block.statements@[i as int].0 as int, block.scope_id));
                    }
                }
                res?;
            }
            i += 1;
        }
        Ok(())
    }

    /// The body of each function the block defines, in order.
    fn resolve_item_blocks(&self, table: &mut SymbolTable, block: &Block, owner: ASTNodeId) -> (r: Result<(), CompilerError>)
        requires
            self.ready(*old(table)),
            block.ids_below(owner.0 as int),
            owner.0 <= self.ast.node_arena@.len(),
        ensures
            (r, declarations(*final(table))) == res_item_blocks(*self.ast, scope_parents(*old(table)), declarations(*old(table)), block.statements@, 0, owner.0 as int),
            block.statements@.len() == 0 ==> r is Ok && *final(table) == *old(table),
            symbols_extend(*old(table), *final(table)),
            r matches Err(e) ==> is_resolution_error(e),
            r is Ok ==> forall|k: int| 0 <= k < block.statements@.len() ==> (self.ast.node_arena@[(#[trigger] block.statements@[k]).0 as int].node_type matches ASTNodeType::FunctionDef(f)
                ==> block_resolves(*self.ast, *final(table), f.body.statements@, f.body.scope_id, block.statements@[k].0 as int)),
        decreases owner.0, 1nat,
    {
        proof {
            lemma_symbols_extend_trans(*old(table), *old(table), *old(table));
        }
        let mut i: usize = 0;
        while i < block.statements.len()
            invariant
                block.statements@.len() == 0 ==> *table == *old(table),
                self.ready(*table),
                symbols_extend(*old(table), *table),
                block.ids_below(owner.0 as int),
                owner.0 <= self.ast.node_arena@.len(),
                i <= block.statements@.len(),
                scope_parents(*table) == scope_parents(*old(table)),
                res_item_blocks(*self.ast, scope_parents(*old(table)), declarations(*old(table)), block.statements@, 0, owner.0 as int) == res_item_blocks(*self.ast, scope_parents(*old(table)), declarations(*table), block.statements@, i as int, owner.0 as int),
                forall|k: int| 0 <= k < i ==> (self.ast.node_arena@[(#[trigger] block.statements@[k]).0 as int].node_type matches ASTNodeType::FunctionDef(f)
                    ==> block_resolves(*self.ast, *table, f.body.statements@, f.body.scope_id, block.statements@[k].0 as int)),
            decreases block.statements@.len() - i,
        {
            let id = block.statements[i];
            let node = self.ast.lookup(id);
            if let ASTNodeType::FunctionDef(func_def_node) = &node.node_type {
                proof {
                    assert(block_scopes_below(self.ast.node_arena@[id.0 as int].node_type, table.scopes@.len() as int));
                    assert(children_below(self.ast.node_arena@[id.0 as int].node_type, id.0 as int));
                }
                let ghost before = *table;
                proof {
                    lemma_extend_parents(*old(table), *table);
                }
                let res = self.resolve_block(table, &func_def_node.body, id);
                proof {
                    lemma_symbols_extend_trans(*old(table), before, *table);
                    lemma_extend_parents(*old(table), *table);
                    if res is Ok {
                        assert forall|k: int| 0 <= k < i implies (self.ast.node_arena@[(#[trigger] block.statements@[k]).0 as int].node_type matches ASTNodeType::FunctionDef(f)
                            ==> block_resolves(*self.ast, *table, f.body.statements@, f.body.scope_id, block.statements@[k].0 as int)) by {
                            if let ASTNodeType::FunctionDef(f) = self.ast.node_arena@[block.statements@[k].0 as int].node_type {
                                lemma_block_resolves_monotonic(*self.ast, before, *table, f.body.statements@, f.body.scope_id, block.statements@[k].0 as int);
                            }
                        }
                    }
                }
                res?;
            }
            i += 1;
        }
        Ok(())
    }

    /// A block: first the signature of each function it defines, then the
    /// body of each, then its other statements in order.
    fn resolve_block(&self, table: &mut SymbolTable, block: &Block, owner: ASTNodeId) -> (r: Result<(), CompilerError>)
        requires
            self.ready(*old(table)),
            block.scope_id.0 < old(table).scopes@.len(),
            block.ids_below(owner.0 as int),
            owner.0 <= self.ast.node_arena@.len(),
        ensures
            (r, declarations(*final(table))) == res_block(*self.ast, scope_parents(*old(table)), declarations(*old(table)), block.statements@, block.scope_id, owner.0 as int),
            block.statements@.len() == 0 ==> r is Ok && *final(table) == *old(table),
            symbols_extend(*old(table), *final(table)),
            r matches Err(e) ==> is_resolution_error(e),
            r is Ok ==> block_resolves(*self.ast, *final(table), block.statements@, block.scope_id, owner.0 as int),
        decreases owner.0, 2nat,
    {
        proof {
            lemma_symbols_extend_trans(*old(table), *old(table), *old(table));
        }
        let ghost before = *table;
        let res = self.resolve_items(table, block, owner);
        proof {
            lemma_symbols_extend_trans(*old(table), before, *table);
        }
        res?;
        let ghost after_items = *table;
        proof {
            lemma_extend_parents(*old(table), *table);
        }
        let res = self.resolve_item_blocks(table, block, owner);
        proof {
            lemma_symbols_extend_trans(*old(table), after_items, *table);
        }
        res?;
        let ghost before = *table;
        proof {
            lemma_extend_parents(*old(table), *table);
        }
        let res = self.resolve_statements(table, block, owner);
        proof {
            lemma_symbols_extend_trans(*old(table), before, *table);
            lemma_symbols_extend_trans(after_items, before, *table);
            if res is Ok {
                assert forall|k: int| 0 <= k < block.statements@.len() implies (#[trigger] block.statements@[k]).0 < owner.0 && statement_resolves(
                    *self.ast,
                    *table,
                    block.statements@[k].0 as int,
                    block.scope_id,
                ) by {
                    let id = block.statements@[k].0 as int;
                    if let ASTNodeType::FunctionDef(f) = self.ast.node_arena@[id].node_type {
                        lemma_signature_resolves_monotonic(*self.ast, after_items, *table, id, block.scope_id);
                        lemma_block_resolves_monotonic(*self.ast, before, *table, f.body.statements@, f.body.scope_id, id);
                    }
                }
            }
        }
        res?;
        Ok(())
    }

    /// Resolves a whole program: its global statements form the global
    /// block. On success every name used was declared where it was used.
    pub fn resolve(ast: &AST, table: &mut SymbolTable) -> (r: Result<(), CompilerError>)
        requires
            ast.wf(),
            old(table).wf(),
            ast.scopes_below(old(table).scopes@.len() as int),
        ensures
            (r, declarations(*final(table))) == res_block(*ast, scope_parents(*old(table)), declarations(*old(table)), global_statements(*ast), ScopeId(0), ast.node_arena@.len() as int),
            ast.statement_root_node_ids@.len() == 0 ==> r is Ok && *final(table) == *old(table),
            symbols_extend(*old(table), *final(table)),
            r matches Err(e) ==> is_resolution_error(e),
            r is Ok ==> block_resolves(*ast, *final(table), global_statements(*ast), ScopeId(0), ast.node_arena@.len() as int),
    {
        let global = global_block(ast);
        let resolver = NameResolver::new(ast);
        proof {
            if ast.statement_root_node_ids@.len() == 0 {
                assert(ast.statement_root_node_ids@ =~= Seq::<ASTNodeId>::empty());
                reveal_with_fuel(Seq::filter, 1);
                assert(global.statements@.len() == 0);
            }
        }
        let r = resolver.resolve_block(table, &global, ASTNodeId(ast.node_arena.len()));
        assert(global.scope_id == ScopeId(0));
        r
    }
}

/// The statements of the program that stand in the global scope, in order.
pub open spec fn global_statements(ast: AST) -> Seq<ASTNodeId> {
    ast.statement_root_node_ids@.filter(
        |id: ASTNodeId| 0 <= id.0 < ast.node_arena@.len() && ast.node_arena@[id.0 as int].scope_id.0 == 0,
    )
}

/// The global block: the global statements in the global scope.
pub fn global_block(ast: &AST) -> (r: Block)
    requires
        ast.wf(),
    ensures
        r.scope_id.0 == 0,
        r.statements@ == global_statements(*ast),
        r.ids_below(ast.node_arena@.len() as int),
{
    let mut statements: Vec<ASTNodeId> = Vec::new();
    let roots = ast.statement_root_node_id_iter();
    let ghost keep = |id: ASTNodeId| 0 <= id.0 < ast.node_arena@.len() && ast.node_arena@[id.0 as int].scope_id.0 == 0;
    let mut i: usize = 0;
    while i < roots.len()
        invariant
            roots@ == ast.statement_root_node_ids@,
            ast.wf(),
            i <= roots@.len(),
            statements@ == roots@.subrange(0, i as int).filter(keep),
            keep == (|id: ASTNodeId| 0 <= id.0 < ast.node_arena@.len() && ast.node_arena@[id.0 as int].scope_id.0 == 0),
        decreases roots@.len() - i,
    {
        let id = roots[i];
        assert(ast.statement_root_node_ids@[i as int].0 < ast.node_arena@.len());
        proof {
            assert(roots@.subrange(0, i + 1).drop_last() =~= roots@.subrange(0, i as int));
            assert(roots@.subrange(0, i + 1).last() == id);
            roots@.subrange(0, i as int).lemma_filter_push(id, keep);
            assert(roots@.subrange(0, i as int).push(id) =~= roots@.subrange(0, i + 1));
        }
        if ast.lookup(id).scope_id.0 == 0 {
            statements.push(id);
        }
        assert(keep(id) == (ast.node_arena@[id.0 as int].scope_id.0 == 0));
        i += 1;
    }
    proof {
        assert(roots@.subrange(0, roots@.len() as int) =~= roots@);
        broadcast use vstd::seq_lib::group_filter_ensures;
        assert forall|k: int| 0 <= k < statements@.len() implies (#[trigger] statements@[k]).0 < ast.node_arena@.len() by {
            assert(keep(statements@[k]));
        }
    }
    Block::new(statements, ScopeId::global())
}

} // verus!
