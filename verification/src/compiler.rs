use vstd::prelude::*;
use crate::compiler_context::context::CompilerContext;
use crate::compiler_context::symbol_table::SymbolTable;
use crate::error::spanned_error::CompilerError;
use crate::lexer::{lexical_analysis, lines_budget, all_lines_lex, first_lex_error};
use crate::semantic::{AnnotatedAST, analyse_program, analysis_matches};
use crate::syntax::parse_outcome;
use crate::ast::arena_ast::AST;
use crate::semantic::type_synthesis::{literal_type_ok, synthesis_supported, table_types_below};
use crate::semantic::name_resolution::{block_resolves, global_statements};
use crate::ast::ast_node::is_expression;
use crate::compiler_context::scope::ScopeId;
use crate::source::source_file::SourceFile;
use crate::syntax::parser::ast_parser::scopes_extend;
use crate::syntax::parser::statement::{lemma_valid_line_shape, line_shape_ok, lines_symbols_below, symbols_below};
use crate::syntax::syntax_analysis;
use crate::text::{lemma_byte_offset_step, str_to_chars, utf8_len};
use crate::syntax::parser::ast_parser::{flat_lines, loop_free_line, statement_node_matches, without_loops_from};
use crate::syntax::parser::statement::non_blank_lines;
use crate::lexer::token::Token;
use crate::lexer::tokenizer::tokens_valid;
use crate::ast::ast_node::ASTNodeType;

verus! {

/// Each line counts in the budget of its file with its length plus two.
pub proof fn lemma_budget_line(lines: Seq<Seq<char>>, i: int)
    requires
        0 <= i < lines.len(),
    ensures
        utf8_len(lines[i]) + 2 <= lines_budget(lines),
    decreases lines.len(),
{
    if i < lines.len() - 1 {
        lemma_budget_line(lines.drop_last(), i);
    }
}

/// Scopes added without symbols keep the recorded types within the arena.
pub proof fn lemma_scopes_extend_types(before: SymbolTable, after: SymbolTable, n: int)
    requires
        scopes_extend(before, after),
        table_types_below(before, n),
    ensures
        table_types_below(after, n),
{
    assert forall|i: int, k: usize|
        0 <= i < after.scopes@.len() && #[trigger] after.scopes@[i].symbols_view().contains_key(k) implies (
        after.scopes@[i].symbols_view()[k].data_type_id matches Some(t) ==> t.0 < n) by {
        if i < before.scopes@.len() {
            assert(after.scopes@[i] == before.scopes@[i]);
        }
    }
}

/// Whether tokenizing the file can intern its strings next to the
/// `interned` strings already held: the budget of the file stays below the
/// largest number of symbols.
pub fn fits_interner(source_file: &SourceFile, interned: usize) -> (r: bool)
    ensures
        r == (interned + lines_budget(source_file.lines_view()) < u32::MAX),
{
    let ghost lines = source_file.lines_view();
    let mut total: u64 = interned as u64;
    let mut i: usize = 0;
    let n = source_file.line_count();
    if total >= u32::MAX as u64 {
        proof {
            assert(lines_budget(lines) >= 0) by {
                if lines.len() > 0 {
                    lemma_budget_line(lines, 0);
                }
            }
        }
        return false;
    }
    assert(lines.subrange(0, 0) =~= Seq::<Seq<char>>::empty());
    while i < n
        invariant
            n == lines.len(),
            lines == source_file.lines_view(),
            i <= n,
            total == interned + lines_budget(lines.subrange(0, i as int)),
            total < u32::MAX,
        decreases n - i,
    {
        let chars = str_to_chars(source_file.get_line(i));
        let ghost line = lines[i as int];
        assert(lines.subrange(0, i + 1).drop_last() =~= lines.subrange(0, i as int));
        assert(lines.subrange(0, i + 1).last() == line);
        assert(chars@.subrange(0, 0) =~= Seq::<char>::empty());
        let mut line_total: u64 = total;
        let mut j: usize = 0;
        while j < chars.len()
            invariant
                chars@ == line,
                line == lines[i as int],
                i < n,
                n == lines.len(),
                lines == source_file.lines_view(),
                total == interned + lines_budget(lines.subrange(0, i as int)),
                lines_budget(lines.subrange(0, i + 1)) == lines_budget(lines.subrange(0, i as int)) + utf8_len(line) + 2,
                j <= chars@.len(),
                line_total == total + utf8_len(chars@.subrange(0, j as int)),
                line_total < u32::MAX,
            decreases chars@.len() - j,
        {
            proof {
                lemma_byte_offset_step(chars@, j as int);
                crate::text::lemma_byte_offset_monotonic(chars@, j + 1, chars@.len() as int);
                assert(chars@.subrange(0, chars@.len() as int) =~= chars@);
            }
            let code = chars[j] as u32;
            let width: u64 = if code < 0x80 {
                1
            } else if code < 0x800 {
                2
            } else if code < 0x10000 {
                3
            } else {
                4
            };
            if width >= u32::MAX as u64 - line_total {
                proof {
                    lemma_budget_prefix(lines, i + 1);
                }
                return false;
            }
            line_total = line_total + width;
            j += 1;
        }
        assert(chars@.subrange(0, chars@.len() as int) =~= chars@);
        if 2 >= u32::MAX as u64 - line_total {
            proof {
                lemma_budget_prefix(lines, i + 1);
            }
            return false;
        }
        total = line_total + 2;
        i += 1;
    }
    assert(lines.subrange(0, n as int) =~= lines);
    true
}

/// The budget of a file is at least that of any of its first lines.
pub proof fn lemma_budget_prefix(lines: Seq<Seq<char>>, k: int)
    requires
        0 <= k <= lines.len(),
    ensures
        lines_budget(lines.subrange(0, k)) <= lines_budget(lines),
    decreases lines.len(),
{
    if k < lines.len() {
        assert(lines.drop_last().subrange(0, k) =~= lines.subrange(0, k));
        lemma_budget_prefix(lines.drop_last(), k);
    } else {
        assert(lines.subrange(0, k) =~= lines);
    }
}

/// `lines` are the tokens of the lines of `source`, each symbol naming its
/// text in `interned`.
pub open spec fn tokenization_of(lines: Seq<Seq<Token>>, source: Seq<Seq<char>>, interned: Seq<Seq<char>>) -> bool {
    &&& lines.len() == source.len()
    &&& forall|i: int| 0 <= i < lines.len() ==> tokens_valid(#[trigger] lines[i], i as usize, source[i], interned)
}

/// A program whose statements each stand on one line, with simple
/// expressions, and without loops.
/// What compiling the source lines `source` from the context `before` gives,
/// `after` being the context then: the error of the first line that does not
/// tokenize; otherwise, with the lines tokenized against the strings interned
/// by then, what parsing them gives (`parse_outcome`): its error, or what
/// analysing the tree gives in the context that parsing left
/// (`analysis_matches`).
pub open spec fn compiled_from(source: Seq<Seq<char>>, before: CompilerContext, after: CompilerContext, r: Result<Option<AnnotatedAST>, CompilerError>) -> bool {
    &&& !all_lines_lex(source) ==> (r matches Err(e) && first_lex_error(e, source, after.string_interner@))
    &&& all_lines_lex(source) ==> exists|lines: Seq<Seq<Token>>, lexed: CompilerContext, parsed: Result<AST, CompilerError>, mid: CompilerContext|
        #![trigger parse_outcome(lines, lexed, mid, parsed)]
        {
            &&& tokenization_of(lines, source, after.string_interner@)
            &&& lexed.symbol_table == before.symbol_table
            &&& lexed.type_arena == before.type_arena
            &&& lexed.string_interner == after.string_interner
            &&& parse_outcome(lines, lexed, mid, parsed)
            &&& match parsed {
                Err(e) => r == Err::<Option<AnnotatedAST>, CompilerError>(e),
                Ok(ast) => analysis_matches(ast, mid, r),
            }
        }
}

pub open spec fn flat_loop_free(lines: Seq<Seq<Token>>) -> bool {
    &&& flat_lines(non_blank_lines(lines))
    &&& forall|i: int| 0 <= i < non_blank_lines(lines).len() ==> loop_free_line(#[trigger] non_blank_lines(lines)[i])
}

/// Compiles one source file: tokenizes it, parses it and analyses it.
/// Gives the typed program, or `None` where the program's names resolve but
/// it uses a construct that type synthesis does not handle (a loop, an
/// index or member access, type arguments on a return type), or the first
/// error of any phase.
pub fn compile_source(source_file: &SourceFile, ctx: &mut CompilerContext) -> (r: Result<Option<AnnotatedAST>, CompilerError>)
    requires
        old(ctx).wf(),
        table_types_below(old(ctx).symbol_table, old(ctx).type_arena.data_types@.len() as int),
        old(ctx).string_interner@.len() + lines_budget(source_file.lines_view()) < u32::MAX,
    ensures
        source_file.lines_view().len() == 0 ==> (r matches Ok(Some(a)) && a.ast.node_arena@.len() == 0),
        compiled_from(source_file.lines_view(), *old(ctx), *final(ctx), r),
        final(ctx).wf(),
        table_types_below(final(ctx).symbol_table, final(ctx).type_arena.data_types@.len() as int),
        r matches Ok(None) ==> exists|lines: Seq<Seq<Token>>| tokenization_of(lines, source_file.lines_view(), final(ctx).string_interner@)
            && !flat_loop_free(lines),
        r matches Ok(Some(a)) ==> exists|lines: Seq<Seq<Token>>| tokenization_of(lines, source_file.lines_view(), final(ctx).string_interner@)
            && (flat_lines(non_blank_lines(lines)) ==> {
                &&& a.ast.statement_root_node_ids@.len() == non_blank_lines(lines).len()
                &&& forall|i: int| 0 <= i < non_blank_lines(lines).len() ==> statement_node_matches(a.ast, #[trigger] a.ast.statement_root_node_ids@[i], non_blank_lines(lines)[i])
            }),
        r matches Ok(Some(a)) ==> {
            &&& a.ast.wf()
            &&& synthesis_supported(a.ast)
            &&& a.ast_expr_data_types@.len() == a.ast.node_arena@.len()
            &&& forall|i: int| 0 <= i < a.ast_expr_data_types@.len() ==> (#[trigger] a.ast_expr_data_types@[i] is Some
                ==> is_expression(a.ast.node_arena@[i].node_type))
            &&& forall|i: int| 0 <= i < a.ast_expr_data_types@.len() ==> (#[trigger] a.ast_expr_data_types@[i] matches Some(t)
                ==> t.0 < final(ctx).type_arena.data_types@.len())
            &&& forall|i: int| 0 <= i < a.ast_expr_data_types@.len() ==> literal_type_ok(a.ast.node_arena@[i].node_type, #[trigger] a.ast_expr_data_types@[i])
            &&& block_resolves(a.ast, final(ctx).symbol_table, global_statements(a.ast), ScopeId(0), a.ast.node_arena@.len() as int)
        },
{
    let source_lines = lexical_analysis(source_file, ctx)?;
    proof {
        assert forall|i: int| 0 <= i < source_lines.0@.len() implies line_shape_ok(#[trigger] source_lines.0@[i]@)
            && symbols_below(source_lines.0@[i]@, ctx.string_interner@.len()) by {
            lemma_budget_line(source_file.lines_view(), i);
            lemma_valid_line_shape(source_lines.0@[i]@, i as usize, source_file.lines_view()[i], ctx.string_interner@);
        }
        assert(lines_symbols_below(source_lines.lines_view(), ctx.string_interner@.len()));
    }
    let ghost before = ctx.symbol_table;
    let ghost lexed = *ctx;
    let ghost lines = source_lines.lines_view();
    let parsed = syntax_analysis(source_lines, ctx);
    let ghost mid = *ctx;
    proof {
        lemma_scopes_extend_types(before, ctx.symbol_table, ctx.type_arena.data_types@.len() as int);
        assert(tokenization_of(lines, source_file.lines_view(), ctx.string_interner@));
    }
    let ast = match parsed {
        Ok(ast) => ast,
        Err(e) => {
            proof {
                assert(parse_outcome(lines, lexed, mid, parsed));
            }
            return Err(e);
        },
    };
    proof {
        assert(tokenization_of(lines, source_file.lines_view(), ctx.string_interner@));
        if flat_loop_free(lines) {
            assert forall|i: int| 0 <= i < ast.node_arena@.len() implies {
                let t = #[trigger] ast.node_arena@[i].node_type;
                &&& !(t is While) && !(t is For) && !(t is Index) && !(t is Access)
                &&& t matches ASTNodeType::FunctionDef(f) ==> (f.return_type matches Some(rt) ==> rt.inner_types@.len() == 0)
            } by {
                assert(without_loops_from(ast, 0));
            }
            assert(synthesis_supported(ast));
        }
    }
    let r = analyse_program(ast, ctx);
    proof {
        assert(parse_outcome(lines, lexed, mid, Ok::<AST, CompilerError>(ast)));
    }
    r
}

} // verus!
