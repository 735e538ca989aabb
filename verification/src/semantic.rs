pub mod error;
pub mod name_resolution;
pub mod type_synthesis;

use vstd::prelude::*;
use crate::ast::arena_ast::AST;
use crate::ast::ast_node::is_expression;
use crate::compiler_context::context::CompilerContext;
use crate::compiler_context::symbol_table::SymbolTable;
use crate::error::spanned_error::CompilerError;
use crate::compiler_context::scope::ScopeId;
use crate::semantic::name_resolution::{NameResolver, block_resolves, declarations, global_statements, is_resolution_error, res_block, scope_parents, symbols_extend};
use crate::semantic::type_synthesis::{TypingState, block_typing, collected, scope_functions, scope_shape, symbol_types, type_names, TypeSynthesizer, is_synthesis_error, literal_type_ok, synthesis_supported, is_synthesis_supported, table_types_below};
use crate::types::data_type::{DataTypeId, DataTypeView};

verus! {

/// A syntax tree with the type of each of its expressions.
#[derive(Debug)]
pub struct AnnotatedAST {
    pub ast: AST,
    /// The type of each node, by node identifier: every expression the
    /// analysis reached has one, statements have none.
    pub ast_expr_data_types: Vec<Option<DataTypeId>>,
}

impl AnnotatedAST {
    pub fn new(ast: AST, ast_node_data_types: Vec<Option<DataTypeId>>) -> (r: Self)
        ensures
            r.ast == ast,
            r.ast_expr_data_types == ast_node_data_types,
    {
        Self { ast, ast_expr_data_types: ast_node_data_types }
    }
}

/// Adding declarations without types keeps every recorded type within the
/// arena.
pub proof fn lemma_symbols_extend_types(before: SymbolTable, after: SymbolTable, n: int)
    requires
        symbols_extend(before, after),
        table_types_below(before, n),
    ensures
        table_types_below(after, n),
{
    assert forall|i: int, k: usize|
        0 <= i < after.scopes@.len() && #[trigger] after.scopes@[i].symbols_view().contains_key(k) implies (
        after.scopes@[i].symbols_view()[k].data_type_id matches Some(t) ==> t.0 < n) by {
        if before.scopes@[i].symbols_view().contains_key(k) {
            assert(after.scopes@[i].symbols_view()[k] == before.scopes@[i].symbols_view()[k]);
        }
    }
}

/// The shape of a table with enclosing scopes `parents` once resolution
/// has made its declarations `decls`.
pub open spec fn declared_shape(parents: Seq<Option<ScopeId>>, decls: Set<(int, usize)>) -> Seq<(Option<ScopeId>, Set<usize>)> {
    Seq::new(parents.len(), |i: int| (parents[i], Set::new(|n: usize| decls.contains((i, n)))))
}

/// The types recorded for symbols once resolution has made its
/// declarations `decls`: those recorded before, none for the new ones.
pub open spec fn declared_symbol_types(before: Map<(int, usize), Option<DataTypeId>>, decls: Set<(int, usize)>) -> Map<
    (int, usize),
    Option<DataTypeId>,
> {
    Map::new(
        |k: (int, usize)| decls.contains(k),
        |k: (int, usize)| if before.contains_key(k) {
            before[k]
        } else {
            None
        },
    )
}

/// Typing, after resolution, the program that resolution was given with
/// the table `table` and that made the declarations `decls`.
pub open spec fn typing_after_resolution(ast: AST, ctx: CompilerContext, decls: Set<(int, usize)>) -> (
    Result<(), CompilerError>,
    TypingState,
    Seq<DataTypeView>,
) {
    block_typing(
        ast,
        type_names(ctx),
        declared_shape(scope_parents(ctx.symbol_table), decls),
        scope_functions(ctx.symbol_table),
        ctx.type_arena.types_view(),
        (
            Seq::new(ast.node_arena@.len(), |i: int| None),
            Seq::new(ast.node_arena@.len(), |i: int| false),
            declared_symbol_types(symbol_types(ctx.symbol_table), decls),
        ),
        global_statements(ast),
        ScopeId(0),
        ast.node_arena@.len() as int,
    )
}

/// Resolution only declares: the table after it has the shape and the
/// recorded types that its declarations give.
pub proof fn lemma_resolved_table(a: SymbolTable, b: SymbolTable)
    requires
        a.wf(),
        symbols_extend(a, b),
    ensures
        scope_shape(b) == declared_shape(scope_parents(a), declarations(b)),
        symbol_types(b) == declared_symbol_types(symbol_types(a), declarations(b)),
        scope_functions(b) == scope_functions(a),
{
    assert forall|i: int| 0 <= i < scope_shape(b).len() implies scope_shape(b)[i] == declared_shape(scope_parents(a), declarations(b))[i] by {
        assert(b.scopes@[i].parent == a.scopes@[i].parent);
        assert(b.scopes@[i].symbols_view().dom() =~= Set::new(|n: usize| declarations(b).contains((i, n))));
    }
    assert(scope_shape(b) =~= declared_shape(scope_parents(a), declarations(b)));
    assert forall|k: (int, usize)| #![auto] symbol_types(b).dom().contains(k) == declared_symbol_types(symbol_types(a), declarations(b)).dom().contains(k) by {}
    assert forall|k: (int, usize)| #![auto] symbol_types(b).dom().contains(k) implies symbol_types(b)[k] == declared_symbol_types(symbol_types(a), declarations(b))[k] by {
        if symbol_types(a).dom().contains(k) {
            assert(b.scopes@[k.0].symbols_view()[k.1] == a.scopes@[k.0].symbols_view()[k.1]);
        }
    }
    assert(symbol_types(b) =~= declared_symbol_types(symbol_types(a), declarations(b)));
    assert forall|i: int| 0 <= i < scope_functions(a).len() implies scope_functions(a)[i] == scope_functions(b)[i] by {
        assert(b.scopes@[i].function == a.scopes@[i].function);
    }
    assert(scope_functions(a) =~= scope_functions(b));
}

/// Name resolution, then type synthesis. On success every name the program
/// uses denotes a symbol where it is used, and every expression the
/// analysis reached has a type.
pub fn semantic_analysis(ast: AST, ctx: &mut CompilerContext) -> (r: Result<AnnotatedAST, CompilerError>)
    requires
        old(ctx).wf(),
        ast.wf(),
        ast.scopes_below(old(ctx).symbol_table.scopes@.len() as int),
        ast.names_below(old(ctx).string_interner@.len()),
        synthesis_supported(ast),
        table_types_below(old(ctx).symbol_table, old(ctx).type_arena.data_types@.len() as int),
    ensures
        res_block(ast, scope_parents(old(ctx).symbol_table), declarations(old(ctx).symbol_table), global_statements(ast), ScopeId(0), ast.node_arena@.len() as int).0 is Ok ==> (typing_after_resolution(ast, *old(ctx), res_block(ast, scope_parents(old(ctx).symbol_table), declarations(old(ctx).symbol_table), global_statements(ast), ScopeId(0), ast.node_arena@.len() as int).1).0 matches Err(e) ==> r == Err::<AnnotatedAST, CompilerError>(e)),
        res_block(ast, scope_parents(old(ctx).symbol_table), declarations(old(ctx).symbol_table), global_statements(ast), ScopeId(0), ast.node_arena@.len() as int).0 is Ok && typing_after_resolution(ast, *old(ctx), res_block(ast, scope_parents(old(ctx).symbol_table), declarations(old(ctx).symbol_table), global_statements(ast), ScopeId(0), ast.node_arena@.len() as int).1).0 is Ok ==> (match collected(ast, typing_after_resolution(ast, *old(ctx), res_block(ast, scope_parents(old(ctx).symbol_table), declarations(old(ctx).symbol_table), global_statements(ast), ScopeId(0), ast.node_arena@.len() as int).1).1, 0, Seq::empty()) {
            Ok(v) => r matches Ok(a) && a.ast == ast && a.ast_expr_data_types@ == v,
            Err(e) => r == Err::<AnnotatedAST, CompilerError>(e),
        }),
        res_block(ast, scope_parents(old(ctx).symbol_table), declarations(old(ctx).symbol_table), global_statements(ast), ScopeId(0), ast.node_arena@.len() as int).0 matches Err(e) ==> r == Err::<AnnotatedAST, CompilerError>(e),
        r is Ok ==> res_block(ast, scope_parents(old(ctx).symbol_table), declarations(old(ctx).symbol_table), global_statements(ast), ScopeId(0), ast.node_arena@.len() as int).0 is Ok,
        res_block(ast, scope_parents(old(ctx).symbol_table), declarations(old(ctx).symbol_table), global_statements(ast), ScopeId(0), ast.node_arena@.len() as int).0 is Ok ==> (r is Ok || (r matches Err(e) && is_synthesis_error(e))),
        ast.node_arena@.len() == 0 ==> r is Ok,
        final(ctx).wf(),
        final(ctx).string_interner == old(ctx).string_interner,
        table_types_below(final(ctx).symbol_table, final(ctx).type_arena.data_types@.len() as int),
        r matches Err(e) ==> is_resolution_error(e) || is_synthesis_error(e),
        r matches Ok(a) ==> {
            &&& a.ast == ast
            &&& a.ast_expr_data_types@.len() == ast.node_arena@.len()
            &&& forall|i: int| 0 <= i < a.ast_expr_data_types@.len() ==> (#[trigger] a.ast_expr_data_types@[i] is Some
                ==> is_expression(ast.node_arena@[i].node_type))
            &&& forall|i: int| 0 <= i < a.ast_expr_data_types@.len() ==> (#[trigger] a.ast_expr_data_types@[i] matches Some(t)
                ==> t.0 < final(ctx).type_arena.data_types@.len())
            &&& forall|i: int| 0 <= i < a.ast_expr_data_types@.len() ==> literal_type_ok(ast.node_arena@[i].node_type, #[trigger] a.ast_expr_data_types@[i])
            &&& block_resolves(ast, final(ctx).symbol_table, global_statements(ast), ScopeId(0), ast.node_arena@.len() as int)
        },
{
    let ghost before = ctx.symbol_table;
    proof {
        if ast.node_arena@.len() == 0 && ast.statement_root_node_ids@.len() > 0 {
            assert(ast.statement_root_node_ids@[0].0 < ast.node_arena@.len());
        }
    }
    let resolved = NameResolver::resolve(&ast, &mut ctx.symbol_table);
    proof {
        lemma_symbols_extend_types(before, ctx.symbol_table, ctx.type_arena.data_types@.len() as int);
    }
    resolved?;
    let ghost resolved_table = ctx.symbol_table;
    proof {
        lemma_resolved_table(before, ctx.symbol_table);
    }
    let ast_expr_data_types = TypeSynthesizer::synthesize(&ast, ctx)?;
    proof {
        crate::semantic::name_resolution::lemma_block_resolves_monotonic(
            ast,
            resolved_table,
            ctx.symbol_table,
            global_statements(ast),
            ScopeId(0),
            ast.node_arena@.len() as int,
        );
    }
    Ok(AnnotatedAST::new(ast, ast_expr_data_types))
}

/// What analysing `ast` in the context `ctx` gives: the first name
/// resolution error; `None` for a program whose names resolve but that type
/// synthesis does not handle; otherwise the first typing error, or the type
/// of each node.
pub open spec fn analysis_result(ast: AST, ctx: CompilerContext) -> Result<Option<Seq<Option<DataTypeId>>>, CompilerError> {
    let res = res_block(ast, scope_parents(ctx.symbol_table), declarations(ctx.symbol_table), global_statements(ast), ScopeId(0), ast.node_arena@.len() as int);
    match res.0 {
        Err(e) => Err(e),
        Ok(_) => if !synthesis_supported(ast) {
            Ok(None)
        } else {
            let t = typing_after_resolution(ast, ctx, res.1);
            match t.0 {
                Err(e) => Err(e),
                Ok(_) => match collected(ast, t.1, 0, Seq::empty()) {
                    Ok(v) => Ok(Some(v)),
                    Err(e) => Err(e),
                },
            }
        },
    }
}

/// `r` is what analysing `ast` in the context `ctx` gives.
pub open spec fn analysis_matches(ast: AST, ctx: CompilerContext, r: Result<Option<AnnotatedAST>, CompilerError>) -> bool {
    match analysis_result(ast, ctx) {
        Err(e) => r == Err::<Option<AnnotatedAST>, CompilerError>(e),
        Ok(None) => r == Ok::<Option<AnnotatedAST>, CompilerError>(None),
        Ok(Some(v)) => r matches Ok(Some(a)) && a.ast == ast && a.ast_expr_data_types@ == v,
    }
}

/// Name resolution, then, for a program that type synthesis handles (see
/// `synthesis_supported`), type synthesis; `None` for another program whose
/// names resolve.
pub fn analyse_program(ast: AST, ctx: &mut CompilerContext) -> (r: Result<Option<AnnotatedAST>, CompilerError>)
    requires
        old(ctx).wf(),
        ast.wf(),
        ast.scopes_below(old(ctx).symbol_table.scopes@.len() as int),
        ast.names_below(old(ctx).string_interner@.len()),
        table_types_below(old(ctx).symbol_table, old(ctx).type_arena.data_types@.len() as int),
    ensures
        (res_block(ast, scope_parents(old(ctx).symbol_table), declarations(old(ctx).symbol_table), global_statements(ast), ScopeId(0), ast.node_arena@.len() as int).0 is Ok && !synthesis_supported(ast)) ==> r == Ok::<Option<AnnotatedAST>, CompilerError>(None),
        (res_block(ast, scope_parents(old(ctx).symbol_table), declarations(old(ctx).symbol_table), global_statements(ast), ScopeId(0), ast.node_arena@.len() as int).0 is Ok && synthesis_supported(ast)) ==> (typing_after_resolution(ast, *old(ctx), res_block(ast, scope_parents(old(ctx).symbol_table), declarations(old(ctx).symbol_table), global_statements(ast), ScopeId(0), ast.node_arena@.len() as int).1).0 matches Err(e) ==> r == Err::<Option<AnnotatedAST>, CompilerError>(e)),
        res_block(ast, scope_parents(old(ctx).symbol_table), declarations(old(ctx).symbol_table), global_statements(ast), ScopeId(0), ast.node_arena@.len() as int).0 is Ok && synthesis_supported(ast) && typing_after_resolution(ast, *old(ctx), res_block(ast, scope_parents(old(ctx).symbol_table), declarations(old(ctx).symbol_table), global_statements(ast), ScopeId(0), ast.node_arena@.len() as int).1).0 is Ok ==> (match collected(ast, typing_after_resolution(ast, *old(ctx), res_block(ast, scope_parents(old(ctx).symbol_table), declarations(old(ctx).symbol_table), global_statements(ast), ScopeId(0), ast.node_arena@.len() as int).1).1, 0, Seq::empty()) {
            Ok(v) => r matches Ok(Some(a)) && a.ast == ast && a.ast_expr_data_types@ == v,
            Err(e) => r == Err::<Option<AnnotatedAST>, CompilerError>(e),
        }),
        res_block(ast, scope_parents(old(ctx).symbol_table), declarations(old(ctx).symbol_table), global_statements(ast), ScopeId(0), ast.node_arena@.len() as int).0 matches Err(e) ==> r == Err::<Option<AnnotatedAST>, CompilerError>(e),
        r is Ok ==> res_block(ast, scope_parents(old(ctx).symbol_table), declarations(old(ctx).symbol_table), global_statements(ast), ScopeId(0), ast.node_arena@.len() as int).0 is Ok,
        res_block(ast, scope_parents(old(ctx).symbol_table), declarations(old(ctx).symbol_table), global_statements(ast), ScopeId(0), ast.node_arena@.len() as int).0 is Ok ==> (r is Ok || (r matches Err(e) && is_synthesis_error(e))),
        ast.node_arena@.len() == 0 ==> r matches Ok(Some(_)),
        r matches Ok(Some(_)) ==> synthesis_supported(ast),
        analysis_matches(ast, *old(ctx), r),
        final(ctx).wf(),
        final(ctx).string_interner == old(ctx).string_interner,
        table_types_below(final(ctx).symbol_table, final(ctx).type_arena.data_types@.len() as int),
        r matches Err(e) ==> is_resolution_error(e) || is_synthesis_error(e),
        r matches Ok(Some(a)) ==> {
            &&& a.ast == ast
            &&& a.ast_expr_data_types@.len() == ast.node_arena@.len()
            &&& forall|i: int| 0 <= i < a.ast_expr_data_types@.len() ==> (#[trigger] a.ast_expr_data_types@[i] is Some
                ==> is_expression(ast.node_arena@[i].node_type))
            &&& forall|i: int| 0 <= i < a.ast_expr_data_types@.len() ==> (#[trigger] a.ast_expr_data_types@[i] matches Some(t)
                ==> t.0 < final(ctx).type_arena.data_types@.len())
            &&& forall|i: int| 0 <= i < a.ast_expr_data_types@.len() ==> literal_type_ok(ast.node_arena@[i].node_type, #[trigger] a.ast_expr_data_types@[i])
            &&& block_resolves(ast, final(ctx).symbol_table, global_statements(ast), ScopeId(0), ast.node_arena@.len() as int)
        },
{
    let ghost before = ctx.symbol_table;
    proof {
        if ast.node_arena@.len() == 0 && ast.statement_root_node_ids@.len() > 0 {
            assert(ast.statement_root_node_ids@[0].0 < ast.node_arena@.len());
        }
    }
    let resolved = NameResolver::resolve(&ast, &mut ctx.symbol_table);
    proof {
        lemma_symbols_extend_types(before, ctx.symbol_table, ctx.type_arena.data_types@.len() as int);
    }
    resolved?;
    let ghost resolved_table = ctx.symbol_table;
    proof {
        lemma_resolved_table(before, ctx.symbol_table);
    }
    if !is_synthesis_supported(&ast) {
        return Ok(None);
    }
    let ast_expr_data_types = TypeSynthesizer::synthesize(&ast, ctx)?;
    proof {
        crate::semantic::name_resolution::lemma_block_resolves_monotonic(
            ast,
            resolved_table,
            ctx.symbol_table,
            global_statements(ast),
            ScopeId(0),
            ast.node_arena@.len() as int,
        );
    }
    Ok(Some(AnnotatedAST::new(ast, ast_expr_data_types)))
}

} // verus!
