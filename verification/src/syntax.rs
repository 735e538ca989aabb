pub mod error;
pub mod parser;

use vstd::prelude::*;
use crate::ast::arena_ast::AST;
use crate::syntax::parser::statement::Statement;
use crate::lexer::token::Token;
use crate::compiler_context::context::CompilerContext;
use crate::error::spanned_error::CompilerError;
use crate::lexer::TokenizedLines;
use crate::syntax::parser::ast_parser::{ASTParser, program_parses, program_tree, statements_of_lines, flat_lines, own_lines, scopes_extend, statement_node_matches, loop_free_line, without_loops_from};
use crate::syntax::parser::statement::{line_shape_ok, lines_symbols_below, non_blank_lines};

verus! {

/// What parsing the tokenized `lines` with the context `before` may give,
/// `after` being the context then: the contract of `syntax_analysis`.
pub open spec fn parse_outcome(lines: Seq<Seq<Token>>, before: CompilerContext, after: CompilerContext, r: Result<AST, CompilerError>) -> bool {
    &&& after.wf()
    &&& after.string_interner == before.string_interner
    &&& after.type_arena == before.type_arena
    &&& scopes_extend(before.symbol_table, after.symbol_table)
    &&& r matches Ok(ast) ==> {
        &&& ast.wf()
        &&& ast.scopes_below(after.symbol_table.scopes@.len() as int)
        &&& ast.names_below(after.string_interner@.len())
        &&& ast.statement_root_node_ids@.len() == own_lines(non_blank_lines(lines))
    }
    &&& flat_lines(non_blank_lines(lines)) ==> r is Ok
    &&& program_parses(lines) ==> r is Ok
    &&& r matches Ok(ast) ==> exists|ss: Seq<Statement>| statements_of_lines(ss, lines) && #[trigger] program_tree(ast, ss)
    &&& flat_lines(non_blank_lines(lines)) ==> (r matches Ok(ast) && {
        let nb = non_blank_lines(lines);
        &&& ast.statement_root_node_ids@.len() == nb.len()
        &&& forall|i: int| 0 <= i < nb.len() ==> statement_node_matches(ast, #[trigger] ast.statement_root_node_ids@[i], nb[i])
        &&& (forall|i: int| 0 <= i < nb.len() ==> loop_free_line(#[trigger] nb[i])) ==> without_loops_from(ast, 0)
    })
    &&& non_blank_lines(lines).len() == 0 ==> (r matches Ok(ast) && ast.node_arena@.len() == 0)
}

/// The AST of a tokenized file, one statement root for each non-blank line
/// that does not continue an `if`. A program parses when its statements do
/// (`program_parses`: each body one level deeper than its statement, each
/// line's own tokens parsing); the tree it gives is that of its statements
/// at every depth (`program_tree`); one whose statements each stand on one
/// line, with simple expressions, parses with each root matching its line.
/// The scopes of the bodies it holds are added to the context's symbol
/// table; nothing else of the context changes.
pub fn syntax_analysis(source_lines: TokenizedLines, ctx: &mut CompilerContext) -> (r: Result<AST, CompilerError>)
    requires
        old(ctx).wf(),
        forall|i: int| 0 <= i < source_lines.0@.len() ==> line_shape_ok(#[trigger] source_lines.0@[i]@),
        lines_symbols_below(source_lines.lines_view(), old(ctx).string_interner@.len()),
    ensures
        final(ctx).wf(),
        final(ctx).string_interner == old(ctx).string_interner,
        final(ctx).type_arena == old(ctx).type_arena,
        scopes_extend(old(ctx).symbol_table, final(ctx).symbol_table),
        r matches Ok(ast) ==> {
            &&& ast.wf()
            &&& ast.scopes_below(final(ctx).symbol_table.scopes@.len() as int)
            &&& ast.names_below(final(ctx).string_interner@.len())
            &&& ast.statement_root_node_ids@.len() == own_lines(non_blank_lines(source_lines.lines_view()))
        },
        flat_lines(non_blank_lines(source_lines.lines_view())) ==> r is Ok,
        flat_lines(non_blank_lines(source_lines.lines_view())) ==> (r matches Ok(ast) && {
            let nb = non_blank_lines(source_lines.lines_view());
            &&& ast.statement_root_node_ids@.len() == nb.len()
            &&& forall|i: int| 0 <= i < nb.len() ==> statement_node_matches(ast, #[trigger] ast.statement_root_node_ids@[i], nb[i])
            &&& (forall|i: int| 0 <= i < nb.len() ==> loop_free_line(#[trigger] nb[i])) ==> without_loops_from(ast, 0)
        }),
        non_blank_lines(source_lines.lines_view()).len() == 0 ==> (r matches Ok(ast) && ast.node_arena@.len() == 0),
        program_parses(source_lines.lines_view()) ==> r is Ok,
        r matches Ok(ast) ==> exists|ss: Seq<Statement>| statements_of_lines(ss, source_lines.lines_view()) && #[trigger] program_tree(ast, ss),
        parse_outcome(source_lines.lines_view(), *old(ctx), *final(ctx), r),
{
    ASTParser::generate_ast(source_lines, ctx)
}

} // verus!
