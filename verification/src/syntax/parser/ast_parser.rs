use vstd::prelude::*;
use crate::ast::arena_ast::{AST, ast_extends};
use crate::ast::ast_node::{ASTNodeId, ASTNodeLocation, ASTNodeType, block_scopes_below};
use crate::ast::block_body::Block;
use crate::ast::for_node::{ForNode, ForVariable};
use crate::ast::function_def_node::FunctionDefNode;
use crate::ast::if_node::{ConditionBlock, IfNode};
use crate::ast::while_node::WhileNode;
use crate::compiler_context::scope::ScopeId;
use crate::compiler_context::context::CompilerContext;
use crate::compiler_context::symbol_table::SymbolTable;
use crate::error::spanned_error::{CompilerError, ErrorKind, SpannableError};
use crate::lexer::TokenizedLines;
use crate::lexer::token::{Token, TokenType};
use crate::syntax::error::SyntaxError;
use crate::syntax::parser::expression::{ExpressionParser, expr_end, expression_end, lemma_spells_extend, simple_expression_at, spells};
use crate::syntax::parser::function_signature::{parse_function_name, parse_parameters, parse_return_type};
use crate::syntax::parser::statement::{non_blank_lines, SourceStatements, Statement, line_shape_ok, lines_symbols_below, statements_symbols_below, symbols_below};

verus! {

/// Builds the AST of a file statement by statement. A statement whose line
/// is indented one level deeper than the statement before it belongs to the
/// body of that statement.
pub struct ASTParser {
    pub ast: AST,
    /// The statements not yet parsed, the next one last.
    pub statements: Vec<Statement>,
    /// The number of interned strings, which every token names one of.
    pub symbol_bound: Ghost<nat>,
}

/// The symbol table after a parsing step: the same scopes, then new ones
/// without symbols.
pub open spec fn scopes_extend(before: SymbolTable, after: SymbolTable) -> bool {
    &&& after.wf()
    &&& before.scopes@.len() <= after.scopes@.len()
    &&& forall|i: int| 0 <= i < before.scopes@.len() ==> after.scopes@[i] == before.scopes@[i]
    &&& forall|i: int| before.scopes@.len() <= i < after.scopes@.len() ==> (#[trigger] after.scopes@[i]).symbols_view()
        == Map::<usize, crate::compiler_context::symbol_table::symbol::Symbol>::empty()
    &&& after.next_symbol_id == before.next_symbol_id
}

/// A parsing step from `before` to `after`: the AST only grows and stays
/// within the scopes of `table`, and the statements left are those of
/// `before` minus some taken from the end.
pub open spec fn parser_step(before: ASTParser, after: ASTParser, table: SymbolTable) -> bool {
    &&& after.wf(table)
    &&& after.symbol_bound == before.symbol_bound
    &&& ast_extends(before.ast, after.ast)
    &&& after.statements@.len() <= before.statements@.len()
    &&& forall|i: int| 0 <= i < after.statements@.len() ==> after.statements@[i] == before.statements@[i]
}

/// Whether a statement continues an `if`: an `elif` or an `else` line.
pub open spec fn is_branch_statement(s: Statement) -> bool {
    s.tokens@[1].token_type is Elif || s.tokens@[1].token_type is Else
}

/// Whether a statement opens a body: a function, an `if`, a `while` or a
/// `for`.
pub open spec fn opens_body(s: Statement) -> bool {
    compound_line(s.tokens@)
}

/// The block structure of the statements left to parse, `rest` (the next
/// one last). `after_statement(rest, s)` is how many statements are left
/// once the statement `s`, just taken, is parsed with its body and, for an
/// `if`, with its `elif` and `else` branches.
#[verifier::opaque]
pub open spec fn after_statement(rest: Seq<Statement>, s: Statement) -> int
    decreases rest.len(), 2nat,
{
    if opens_body(s) {
        let b = after_body(rest, s.indent_size);
        if s.tokens@[1].token_type is If && 0 <= b <= rest.len() {
            after_branches(rest.subrange(0, b))
        } else {
            b
        }
    } else {
        rest.len() as int
    }
}

/// How many statements are left once the body of a statement indented at
/// level `d` is parsed: each next statement indented at level `d + 1`,
/// with its own body, until one indented at most at level `d`.
#[verifier::opaque]
pub open spec fn after_body(rest: Seq<Statement>, d: usize) -> int
    decreases rest.len(), 1nat,
{
    if rest.len() == 0 || rest.last().indent_size <= d || rest.last().indent_size > d + 1 {
        rest.len() as int
    } else {
        let e = after_statement(rest.drop_last(), rest.last());
        if 0 <= e < rest.len() {
            after_body(rest.subrange(0, e), d)
        } else {
            rest.len() as int
        }
    }
}

/// How many statements are left once the `elif` branches, then the `else`
/// branch, that continue an `if` are parsed with their bodies.
#[verifier::opaque]
pub open spec fn after_branches(rest: Seq<Statement>) -> int
    decreases rest.len(), 0nat,
{
    if rest.len() > 0 && rest.last().tokens@[1].token_type is Elif {
        let e = after_body(rest.drop_last(), rest.last().indent_size);
        if 0 <= e < rest.len() {
            after_branches(rest.subrange(0, e))
        } else {
            rest.len() as int
        }
    } else if rest.len() > 0 && rest.last().tokens@[1].token_type is Else {
        after_body(rest.drop_last(), rest.last().indent_size)
    } else {
        rest.len() as int
    }
}

/// The statements of the body of a statement indented at level `d`, in
/// order: those indented at level `d + 1` that `after_body` goes through.
#[verifier::opaque]
pub open spec fn body_statements(rest: Seq<Statement>, d: usize) -> Seq<Statement>
    decreases rest.len(),
{
    if rest.len() == 0 || rest.last().indent_size <= d || rest.last().indent_size > d + 1 {
        Seq::empty()
    } else {
        let e = after_statement(rest.drop_last(), rest.last());
        if 0 <= e < rest.len() {
            seq![rest.last()] + body_statements(rest.subrange(0, e), d)
        } else {
            seq![rest.last()]
        }
    }
}

/// The `elif` branches that continue an `if`, in order: each `elif`
/// statement with the statements of its body.
#[verifier::opaque]
pub open spec fn elif_branches(rest: Seq<Statement>) -> Seq<(Statement, Seq<Statement>)>
    decreases rest.len(),
{
    if rest.len() > 0 && rest.last().tokens@[1].token_type is Elif {
        let e = after_body(rest.drop_last(), rest.last().indent_size);
        let branch = (rest.last(), body_statements(rest.drop_last(), rest.last().indent_size));
        if 0 <= e < rest.len() {
            seq![branch] + elif_branches(rest.subrange(0, e))
        } else {
            seq![branch]
        }
    } else {
        Seq::empty()
    }
}

/// The `else` branch that ends an `if`, after its `elif` branches, if there
/// is one: the statements of its body.
#[verifier::opaque]
pub open spec fn else_branch(rest: Seq<Statement>) -> Option<Seq<Statement>>
    decreases rest.len(),
{
    if rest.len() > 0 && rest.last().tokens@[1].token_type is Elif {
        let e = after_body(rest.drop_last(), rest.last().indent_size);
        if 0 <= e < rest.len() {
            else_branch(rest.subrange(0, e))
        } else {
            None
        }
    } else if rest.len() > 0 && rest.last().tokens@[1].token_type is Else {
        Some(body_statements(rest.drop_last(), rest.last().indent_size))
    } else {
        None
    }
}

/// The line's own tokens parse: `fn name()` without a return type; `if` or
/// `while` and an expression; `for name in` and an expression; or else an
/// expression (see `expr_end`).
pub open spec fn header_parses(toks: Seq<Token>) -> bool {
    match toks[1].token_type {
        TokenType::Fn => toks.len() > 4 && toks[2].token_type is Identifier && toks[3].token_type is OpenParen
            && toks[4].token_type is CloseParen && !(toks.len() > 5 && toks[5].token_type is RightArrow),
        TokenType::If => expr_end(toks, 2, 0) is Some,
        TokenType::While => expr_end(toks, 2, 0) is Some,
        TokenType::For => toks.len() > 4 && toks[2].token_type is Identifier && toks[3].token_type is In
            && expr_end(toks, 4, 0) is Some,
        _ => expr_end(toks, 1, 0) is Some,
    }
}

/// Whether the statement `s`, taken with the statements `rest` left after
/// it (the next one last), parses: its own line parses (`header_parses`),
/// its body parses and, for an `if`, so do the `elif` and `else` branches
/// that follow the body.
#[verifier::opaque]
pub open spec fn statement_parses(rest: Seq<Statement>, s: Statement) -> bool
    decreases rest.len(), 2nat,
{
    if !header_parses(s.tokens@) {
        false
    } else if !opens_body(s) {
        true
    } else if !body_parses(rest, s.indent_size) {
        false
    } else if s.tokens@[1].token_type is If {
        let b = after_body(rest, s.indent_size);
        if 0 <= b <= rest.len() {
            branches_parse(rest.subrange(0, b))
        } else {
            false
        }
    } else {
        true
    }
}

/// Whether the body of a statement indented at level `d` parses: each
/// next statement indented more deeply is indented at level `d + 1` and
/// parses with its own body.
#[verifier::opaque]
pub open spec fn body_parses(rest: Seq<Statement>, d: usize) -> bool
    decreases rest.len(), 1nat,
{
    if rest.len() == 0 || rest.last().indent_size <= d {
        true
    } else if rest.last().indent_size > d + 1 {
        false
    } else if !statement_parses(rest.drop_last(), rest.last()) {
        false
    } else {
        let e = after_statement(rest.drop_last(), rest.last());
        if 0 <= e < rest.len() {
            body_parses(rest.subrange(0, e), d)
        } else {
            true
        }
    }
}

/// Whether the `elif` and `else` branches that continue an `if` parse:
/// each `elif` condition is an expression that parses, and each branch's
/// body parses.
#[verifier::opaque]
pub open spec fn branches_parse(rest: Seq<Statement>) -> bool
    decreases rest.len(), 0nat,
{
    if rest.len() > 0 && rest.last().tokens@[1].token_type is Elif {
        if !(expr_end(rest.last().tokens@, 2, 0) is Some) || !body_parses(rest.drop_last(), rest.last().indent_size) {
            false
        } else {
            let e = after_body(rest.drop_last(), rest.last().indent_size);
            if 0 <= e < rest.len() {
                branches_parse(rest.subrange(0, e))
            } else {
                true
            }
        }
    } else if rest.len() > 0 && rest.last().tokens@[1].token_type is Else {
        body_parses(rest.drop_last(), rest.last().indent_size)
    } else {
        true
    }
}

/// Whether a whole list of statements (the next one last) parses, each
/// statement taken at the top level with its body and branches.
#[verifier::opaque]
pub open spec fn statements_parse(ss: Seq<Statement>) -> bool
    decreases ss.len(),
{
    if ss.len() == 0 {
        true
    } else if !statement_parses(ss.drop_last(), ss.last()) {
        false
    } else {
        let e = after_statement(ss.drop_last(), ss.last());
        if 0 <= e < ss.len() {
            statements_parse(ss.subrange(0, e))
        } else {
            true
        }
    }
}

/// A body parses statement by statement: its next statement parses, and
/// so does the rest of the body after it; a statement indented more than
/// one level deeper stops it from parsing.
proof fn lemma_body_parses_step(rest: Seq<Statement>, d: usize)
    requires
        rest.len() > 0,
        d < rest.last().indent_size,
    ensures
        rest.last().indent_size > d + 1 ==> !body_parses(rest, d),
        (body_parses(rest, d) && rest.last().indent_size <= d + 1) ==> {
            &&& statement_parses(rest.drop_last(), rest.last())
            &&& {
                let e = after_statement(rest.drop_last(), rest.last());
                0 <= e < rest.len() ==> body_parses(rest.subrange(0, e), d)
            }
        },
{
    reveal(body_parses);
    reveal(statement_parses);
    reveal(branches_parse);
}

/// What a parsing statement asks of its line, its body and its branches.
proof fn lemma_statement_parses_parts(rest: Seq<Statement>, s: Statement)
    requires
        statement_parses(rest, s),
    ensures
        header_parses(s.tokens@),
        opens_body(s) ==> body_parses(rest, s.indent_size),
        (opens_body(s) && s.tokens@[1].token_type is If) ==> {
            let b = after_body(rest, s.indent_size);
            0 <= b <= rest.len() && branches_parse(rest.subrange(0, b))
        },
{
    reveal(body_parses);
    reveal(statement_parses);
    reveal(branches_parse);
}

/// Branches parse one by one: an `elif` branch's condition and body, then
/// the branches after it; an `else` branch's body.
proof fn lemma_branches_parse_step(rest: Seq<Statement>)
    requires
        branches_parse(rest),
        rest.len() > 0,
    ensures
        rest.last().tokens@[1].token_type is Elif ==> {
            &&& expr_end(rest.last().tokens@, 2, 0) is Some
            &&& body_parses(rest.drop_last(), rest.last().indent_size)
            &&& {
                let e = after_body(rest.drop_last(), rest.last().indent_size);
                0 <= e < rest.len() ==> branches_parse(rest.subrange(0, e))
            }
        },
        rest.last().tokens@[1].token_type is Else ==> body_parses(rest.drop_last(), rest.last().indent_size),
{
    reveal(body_parses);
    reveal(statement_parses);
    reveal(branches_parse);
}

/// A list of statements parses statement by statement.
proof fn lemma_statements_parse_step(ss: Seq<Statement>)
    requires
        statements_parse(ss),
        ss.len() > 0,
    ensures
        statement_parses(ss.drop_last(), ss.last()),
        ({
            let e = after_statement(ss.drop_last(), ss.last());
            0 <= e < ss.len() ==> statements_parse(ss.subrange(0, e))
        }),
{
    reveal(statements_parse);
}

/// Two statements with the same tokens and indentation.
pub open spec fn same_statement(a: Statement, b: Statement) -> bool {
    a.tokens@ == b.tokens@ && a.indent_size == b.indent_size
}

/// Two lists of statements, statement by statement the same.
pub open spec fn same_statements(a: Seq<Statement>, b: Seq<Statement>) -> bool {
    &&& a.len() == b.len()
    &&& forall|i: int| 0 <= i < a.len() ==> same_statement(#[trigger] a[i], b[i])
}

proof fn lemma_same_statements_prefix(a: Seq<Statement>, b: Seq<Statement>, e: int)
    requires
        same_statements(a, b),
        0 <= e <= a.len(),
    ensures
        same_statements(a.subrange(0, e), b.subrange(0, e)),
{
}

/// The block structure of statements, and whether they parse, depend on
/// their tokens and indentation alone.
proof fn lemma_same_statements(a: Seq<Statement>, b: Seq<Statement>)
    requires
        same_statements(a, b),
    ensures
        forall|d: usize| #[trigger] after_body(a, d) == after_body(b, d) && body_parses(a, d) == body_parses(b, d),
        after_branches(a) == after_branches(b),
        branches_parse(a) == branches_parse(b),
        forall|s1: Statement, s2: Statement| #![trigger after_statement(a, s1), after_statement(b, s2)]
            same_statement(s1, s2) ==> after_statement(a, s1) == after_statement(b, s2) && statement_parses(a, s1)
            == statement_parses(b, s2),
        statements_parse(a) == statements_parse(b),
    decreases a.len(),
{
    reveal(after_statement);
    reveal(after_body);
    reveal(after_branches);
    reveal(statement_parses);
    reveal(body_parses);
    reveal(branches_parse);
    reveal(statements_parse);
    if a.len() > 0 {
        let a1 = a.drop_last();
        let b1 = b.drop_last();
        assert(same_statements(a1, b1));
        lemma_same_statements(a1, b1);
        assert(same_statement(a.last(), b.last()));
        let e = after_statement(a1, a.last());
        assert(e == after_statement(b1, b.last()));
        assert(statement_parses(a1, a.last()) == statement_parses(b1, b.last()));
        if 0 <= e < a.len() {
            lemma_same_statements_prefix(a, b, e);
            lemma_same_statements(a.subrange(0, e), b.subrange(0, e));
        }
        assert forall|d: usize| #[trigger] after_body(a, d) == after_body(b, d) && body_parses(a, d) == body_parses(b, d) by {
            if 0 <= e < a.len() {
                assert(after_body(a.subrange(0, e), d) == after_body(b.subrange(0, e), d));
            }
        }
        let ei = after_body(a1, a.last().indent_size);
        assert(ei == after_body(b1, b.last().indent_size));
        if 0 <= ei < a.len() {
            lemma_same_statements_prefix(a, b, ei);
            lemma_same_statements(a.subrange(0, ei), b.subrange(0, ei));
        }
        assert(after_branches(a) == after_branches(b));
        assert(branches_parse(a) == branches_parse(b));
    }
    assert forall|s1: Statement, s2: Statement| #![trigger after_statement(a, s1), after_statement(b, s2)]
        same_statement(s1, s2) implies after_statement(a, s1) == after_statement(b, s2) && statement_parses(a, s1)
        == statement_parses(b, s2) by {
        let bb = after_body(a, s1.indent_size);
        assert(bb == after_body(b, s2.indent_size));
        if 0 <= bb < a.len() {
            lemma_same_statements_prefix(a, b, bb);
            lemma_same_statements(a.subrange(0, bb), b.subrange(0, bb));
        } else if bb == a.len() {
            assert(a.subrange(0, bb) =~= a);
            assert(b.subrange(0, bb) =~= b);
        }
    }
}

/// `ss` are the statements of the tokenized `lines`, the next one last:
/// the non-blank lines from the last to the first, each at the level of its
/// indentation token.
pub open spec fn statements_of_lines(ss: Seq<Statement>, lines: Seq<Seq<Token>>) -> bool {
    let nb = non_blank_lines(lines);
    &&& ss.len() == nb.len()
    &&& forall|i: int| 0 <= i < ss.len() ==> (#[trigger] ss[i]).tokens@ == nb[nb.len() - 1 - i] && ss[i].indent_size
        == line_indent(nb[nb.len() - 1 - i])
}

/// The program of the tokenized `lines` parses: its statements parse
/// (`statements_parse`), each line's own tokens parsing (`header_parses`)
/// and each body indented one level deeper than its statement.
/// Whether statements parse depends on their tokens alone, so this holds of
/// every list of statements that the lines give if it holds of one.
pub open spec fn program_parses(lines: Seq<Seq<Token>>) -> bool {
    exists|ss: Seq<Statement>| statements_of_lines(ss, lines) && #[trigger] statements_parse(ss)
}

/// For each statement of the body of a statement indented at level `d`, in
/// order, the statements left after it (those `body_statements` goes
/// through, each with what follows it).
#[verifier::opaque]
pub open spec fn body_rests(rest: Seq<Statement>, d: usize) -> Seq<Seq<Statement>>
    decreases rest.len(),
{
    if rest.len() == 0 || rest.last().indent_size <= d || rest.last().indent_size > d + 1 {
        Seq::empty()
    } else {
        let e = after_statement(rest.drop_last(), rest.last());
        if 0 <= e < rest.len() {
            seq![rest.drop_last()] + body_rests(rest.subrange(0, e), d)
        } else {
            seq![rest.drop_last()]
        }
    }
}

/// For each `elif` branch that continues an `if`, in order, the statements
/// left after its `elif` line.
#[verifier::opaque]
pub open spec fn elif_rests(rest: Seq<Statement>) -> Seq<Seq<Statement>>
    decreases rest.len(),
{
    if rest.len() > 0 && rest.last().tokens@[1].token_type is Elif {
        let e = after_body(rest.drop_last(), rest.last().indent_size);
        if 0 <= e < rest.len() {
            seq![rest.drop_last()] + elif_rests(rest.subrange(0, e))
        } else {
            seq![rest.drop_last()]
        }
    } else {
        Seq::empty()
    }
}

/// The `else` line that ends an `if`, after its `elif` branches, if there
/// is one, with the statements left after it.
#[verifier::opaque]
pub open spec fn else_part(rest: Seq<Statement>) -> Option<(Statement, Seq<Statement>)>
    decreases rest.len(),
{
    if rest.len() > 0 && rest.last().tokens@[1].token_type is Elif {
        let e = after_body(rest.drop_last(), rest.last().indent_size);
        if 0 <= e < rest.len() {
            else_part(rest.subrange(0, e))
        } else {
            None
        }
    } else if rest.len() > 0 && rest.last().tokens@[1].token_type is Else {
        Some((rest.last(), rest.drop_last()))
    } else {
        None
    }
}

/// The nodes `ids` are, in order, the trees of the body of a statement
/// indented at level `d`, taken with the statements `rest` after it.
#[verifier::opaque]
pub open spec fn ids_tree_matches(ast: AST, ids: Seq<ASTNodeId>, rest: Seq<Statement>, d: usize) -> bool
    decreases rest.len(), 0nat,
{
    let body = body_statements(rest, d);
    let rests = body_rests(rest, d);
    &&& ids.len() == body.len()
    &&& rests.len() == body.len()
    &&& forall|k: int| 0 <= k < body.len() ==> (#[trigger] rests[k]).len() < rest.len() ==> subtree_matches(ast, ids[k], rests[k], body[k])
}

/// The node `id` is the tree that the statement `s`, taken with the
/// statements `rest` after it, builds: a node of the statement's kind,
/// whose bodies hold, in order and at every depth, the trees of the
/// statements of those bodies; an `if` has one branch per `elif` line
/// and an `else` body exactly when an `else` line follows.
#[verifier::opaque]
pub open spec fn subtree_matches(ast: AST, id: ASTNodeId, rest: Seq<Statement>, s: Statement) -> bool
    decreases rest.len(), 1nat,
{
    &&& node_kind_matches(ast, id, s)
    &&& match ast.node_arena@[id.0 as int].node_type {
        ASTNodeType::FunctionDef(f) => ids_tree_matches(ast, f.body.statements@, rest, s.indent_size),
        ASTNodeType::While(w) => ids_tree_matches(ast, w.body.statements@, rest, s.indent_size),
        ASTNodeType::For(f) => ids_tree_matches(ast, f.body.statements@, rest, s.indent_size),
        ASTNodeType::If(n) => {
            let b = after_body(rest, s.indent_size);
            &&& 0 <= b <= rest.len()
            &&& ids_tree_matches(ast, n.condition_blocks@[0].body.statements@, rest, s.indent_size)
            &&& {
                let branches = rest.subrange(0, b);
                let elifs = elif_branches(branches);
                let erests = elif_rests(branches);
                &&& n.condition_blocks@.len() == elifs.len() + 1
                &&& erests.len() == elifs.len()
                &&& forall|k: int| 0 <= k < elifs.len() ==> (#[trigger] erests[k]).len() < rest.len() ==> ids_tree_matches(
                    ast,
                    n.condition_blocks@[k + 1].body.statements@,
                    erests[k],
                    elifs[k].0.indent_size,
                )
                &&& (n.else_body is Some) == (else_part(branches) is Some)
                &&& n.else_body matches Some(eb) ==> {
                    let ep = else_part(branches)->0;
                    ep.1.len() < rest.len() ==> ids_tree_matches(ast, eb.statements@, ep.1, ep.0.indent_size)
                }
            }
        },
        _ => true,
    }
}

/// The trees of a body stay as the AST grows.
pub proof fn lemma_ids_tree_extend(a: AST, b: AST, ids: Seq<ASTNodeId>, rest: Seq<Statement>, d: usize)
    requires
        ast_extends(a, b),
        ids_tree_matches(a, ids, rest, d),
    ensures
        ids_tree_matches(b, ids, rest, d),
    decreases rest.len(), 0nat,
{
    reveal(ids_tree_matches);
    reveal(subtree_matches);
    let body = body_statements(rest, d);
    let rests = body_rests(rest, d);
    assert forall|k: int| 0 <= k < body.len() implies (#[trigger] rests[k]).len() < rest.len() ==> subtree_matches(b, ids[k], rests[k], body[k]) by {
        if rests[k].len() < rest.len() {
            lemma_subtree_extend(a, b, ids[k], rests[k], body[k]);
        }
    }
}

/// The tree of a statement stays as the AST grows.
pub proof fn lemma_subtree_extend(a: AST, b: AST, id: ASTNodeId, rest: Seq<Statement>, s: Statement)
    requires
        ast_extends(a, b),
        subtree_matches(a, id, rest, s),
    ensures
        subtree_matches(b, id, rest, s),
    decreases rest.len(), 1nat,
{
    reveal(subtree_matches);
    reveal(ids_tree_matches);
    assert(b.node_arena@[id.0 as int] == a.node_arena@[id.0 as int]);
    match a.node_arena@[id.0 as int].node_type {
        ASTNodeType::FunctionDef(f) => {
            lemma_ids_tree_extend(a, b, f.body.statements@, rest, s.indent_size);
        },
        ASTNodeType::While(w) => {
            lemma_ids_tree_extend(a, b, w.body.statements@, rest, s.indent_size);
        },
        ASTNodeType::For(f) => {
            lemma_ids_tree_extend(a, b, f.body.statements@, rest, s.indent_size);
        },
        ASTNodeType::If(n) => {
            lemma_ids_tree_extend(a, b, n.condition_blocks@[0].body.statements@, rest, s.indent_size);
            let bb = after_body(rest, s.indent_size);
            let branches = rest.subrange(0, bb);
            let elifs = elif_branches(branches);
            let erests = elif_rests(branches);
            assert forall|k: int| 0 <= k < elifs.len() implies (#[trigger] erests[k]).len() < rest.len() ==> ids_tree_matches(
                b,
                n.condition_blocks@[k + 1].body.statements@,
                erests[k],
                elifs[k].0.indent_size,
            ) by {
                if erests[k].len() < rest.len() {
                    lemma_ids_tree_extend(a, b, n.condition_blocks@[k + 1].body.statements@, erests[k], elifs[k].0.indent_size);
                }
            }
            match n.else_body {
                Some(eb) => {
                    let ep = else_part(branches)->0;
                    if ep.1.len() < rest.len() {
                        lemma_ids_tree_extend(a, b, eb.statements@, ep.1, ep.0.indent_size);
                    }
                },
                None => {},
            }
        },
        _ => {},
    }
}

/// The statements taken at the top level, in order, from a list of
/// statements (the next one last): each with its body and branches.
#[verifier::opaque]
pub open spec fn top_statements(ss: Seq<Statement>) -> Seq<Statement>
    decreases ss.len(),
{
    if ss.len() == 0 {
        Seq::empty()
    } else {
        let e = after_statement(ss.drop_last(), ss.last());
        if 0 <= e < ss.len() {
            seq![ss.last()] + top_statements(ss.subrange(0, e))
        } else {
            seq![ss.last()]
        }
    }
}

/// For each statement taken at the top level, in order, the statements left
/// after it.
#[verifier::opaque]
pub open spec fn top_rests(ss: Seq<Statement>) -> Seq<Seq<Statement>>
    decreases ss.len(),
{
    if ss.len() == 0 {
        Seq::empty()
    } else {
        let e = after_statement(ss.drop_last(), ss.last());
        if 0 <= e < ss.len() {
            seq![ss.drop_last()] + top_rests(ss.subrange(0, e))
        } else {
            seq![ss.drop_last()]
        }
    }
}

/// The tree `ast` is that of the statements `ss` (the next one last): for
/// each statement taken at the top level, in order, a statement root of
/// `ast` is the tree that statement builds (`subtree_matches`).
pub open spec fn program_tree(ast: AST, ss: Seq<Statement>) -> bool {
    let tops = top_statements(ss);
    let rests = top_rests(ss);
    &&& rests.len() == tops.len()
    &&& exists|pos: Seq<int>| #![trigger pos.len()] {
        &&& pos.len() == tops.len()
        &&& forall|k: int| 0 <= k < tops.len() ==> 0 <= #[trigger] pos[k] < ast.statement_root_node_ids@.len()
            && subtree_matches(ast, ast.statement_root_node_ids@[pos[k]], rests[k], tops[k])
    }
}

/// The node `id` is of the kind that statement `s` builds: a function
/// definition, an `if`, a `while` or a `for` for a line that opens a body
/// with that keyword, and otherwise an expression.
pub open spec fn node_kind_matches(ast: AST, id: ASTNodeId, s: Statement) -> bool {
    &&& 0 <= id.0 < ast.node_arena@.len()
    &&& match s.tokens@[1].token_type {
        TokenType::Fn => ast.node_arena@[id.0 as int].node_type is FunctionDef,
        TokenType::If => ast.node_arena@[id.0 as int].node_type is If,
        TokenType::While => ast.node_arena@[id.0 as int].node_type is While,
        TokenType::For => ast.node_arena@[id.0 as int].node_type is For,
        _ => crate::ast::ast_node::is_expression(ast.node_arena@[id.0 as int].node_type),
    }
}

/// The `if` node `n` is what the statement `if_statement` says, with the
/// statements `rest` that followed it: one condition block for the `if`
/// and one for each `elif` branch, in order, each body with as many
/// statements as the branch has and each simple condition spelled by its
/// line; an `else` body exactly when an `else` branch follows.
pub open spec fn if_node_matches(ast: AST, n: IfNode, if_statement: Statement, rest: Seq<Statement>) -> bool {
    let d = if_statement.indent_size;
    let branches = rest.subrange(0, after_body(rest, d));
    let elifs = elif_branches(branches);
    &&& n.condition_blocks@.len() == elifs.len() + 1
    &&& body_matches(ast, n.condition_blocks@[0].body, body_statements(rest, d))
    &&& simple_expression_at(if_statement.tokens@, 2) ==> spells(ast, n.condition_blocks@[0].condition,
        if_statement.tokens@.subrange(2, expression_end(if_statement.tokens@, 2)))
    &&& forall|k: int| 0 <= k < elifs.len() ==> {
        &&& body_matches(ast, (#[trigger] n.condition_blocks@[k + 1]).body, elifs[k].1)
        &&& simple_expression_at(elifs[k].0.tokens@, 2) ==> spells(ast, n.condition_blocks@[k + 1].condition,
            elifs[k].0.tokens@.subrange(2, expression_end(elifs[k].0.tokens@, 2)))
    }
    &&& (n.else_body is Some) == (else_branch(branches) is Some)
    &&& n.else_body matches Some(b) ==> body_matches(ast, b, else_branch(branches)->0)
}

/// The block's statements are, in order, nodes of the kinds that the
/// statements `body` build.
pub open spec fn body_matches(ast: AST, block: Block, body: Seq<Statement>) -> bool {
    &&& block.statements@.len() == body.len()
    &&& forall|k: int| 0 <= k < body.len() ==> node_kind_matches(ast, #[trigger] block.statements@[k], body[k])
}

/// A block keeps matching its statements as the AST grows.
pub proof fn lemma_body_matches_extend(a: AST, b: AST, block: Block, body: Seq<Statement>)
    requires
        ast_extends(a, b),
        body_matches(a, block, body),
    ensures
        body_matches(b, block, body),
{
    assert forall|k: int| 0 <= k < body.len() implies node_kind_matches(b, #[trigger] block.statements@[k], body[k]) by {
        assert(b.node_arena@[block.statements@[k].0 as int] == a.node_arena@[block.statements@[k].0 as int]);
    }
}

/// The number of statements of `ss` that stand on their own rather than
/// continue an `if`.
pub open spec fn own_statements(ss: Seq<Statement>) -> nat
    decreases ss.len(),
{
    if ss.len() == 0 {
        0
    } else {
        own_statements(ss.drop_last()) + if is_branch_statement(ss.last()) {
            0nat
        } else {
            1nat
        }
    }
}

/// From `before` to `after`, one statement root was listed for each
/// statement taken that stands on its own.
pub open spec fn roots_track(before: ASTParser, after: ASTParser) -> bool {
    after.ast.statement_root_node_ids@.len() == before.ast.statement_root_node_ids@.len() + own_statements(
        before.statements@.subrange(after.statements@.len() as int, before.statements@.len() as int),
    )
}

/// Counting statements that stand on their own adds up over consecutive
/// ranges.
pub proof fn lemma_own_statements_split(ss: Seq<Statement>, a: int, b: int, c: int)
    requires
        0 <= a <= b <= c <= ss.len(),
    ensures
        own_statements(ss.subrange(a, c)) == own_statements(ss.subrange(a, b)) + own_statements(ss.subrange(b, c)),
    decreases c - b,
{
    if b < c {
        lemma_own_statements_split(ss, a, b, c - 1);
        assert(ss.subrange(a, c).drop_last() =~= ss.subrange(a, c - 1));
        assert(ss.subrange(b, c).drop_last() =~= ss.subrange(b, c - 1));
    } else {
        assert(ss.subrange(b, c) =~= Seq::<Statement>::empty());
        assert(ss.subrange(a, c) =~= ss.subrange(a, b));
    }
}

/// The number of lines of `lines` whose first token after the indentation
/// is not `elif` or `else`.
pub open spec fn own_lines(lines: Seq<Seq<Token>>) -> nat
    decreases lines.len(),
{
    if lines.len() == 0 {
        0
    } else {
        own_lines(lines.drop_last()) + if lines.last()[1].token_type is Elif || lines.last()[1].token_type is Else {
            0nat
        } else {
            1nat
        }
    }
}

/// Counting own statements does not depend on their order, and counts
/// their lines.
pub proof fn lemma_own_statements_reverse(ss: Seq<Statement>)
    ensures
        own_statements(ss.reverse()) == own_statements(ss),
        own_statements(ss) == own_lines(Seq::new(ss.len(), |i: int| ss[i].tokens@)),
    decreases ss.len(),
{
    if ss.len() > 0 {
        lemma_own_statements_reverse(ss.drop_last());
        let r = ss.reverse();
        lemma_own_statements_split(r, 0, 1, r.len() as int);
        assert(r.subrange(1, r.len() as int) =~= ss.drop_last().reverse());
        assert(r.subrange(0, r.len() as int) =~= r);
        assert(r.subrange(0, 1).drop_last() =~= Seq::<Statement>::empty());
        assert(r.subrange(0, 1).last() == ss.last());
        assert(own_statements(Seq::<Statement>::empty()) == 0);
        let lines = Seq::new(ss.len(), |i: int| ss[i].tokens@);
        assert(lines.drop_last() =~= Seq::new(ss.drop_last().len(), |i: int| ss.drop_last()[i].tokens@));
    } else {
        assert(ss.reverse() =~= ss);
        assert(Seq::new(ss.len(), |i: int| ss[i].tokens@) =~= Seq::<Seq<Token>>::empty());
    }
}

/// No step lists no root.
pub proof fn lemma_roots_track_refl(p: ASTParser)
    ensures
        roots_track(p, p),
{
    assert(p.statements@.subrange(p.statements@.len() as int, p.statements@.len() as int) =~= Seq::<Statement>::empty());
}

/// Taking the next statement, a line that continues an `if`, lists no root.
pub proof fn lemma_roots_track_branch(a: ASTParser, b: ASTParser)
    requires
        a.statements@.len() > 0,
        b.statements@ == a.statements@.drop_last(),
        b.ast.statement_root_node_ids == a.ast.statement_root_node_ids,
        is_branch_statement(a.statements@.last()),
    ensures
        roots_track(a, b),
{
    let t = a.statements@.subrange(b.statements@.len() as int, a.statements@.len() as int);
    assert(t.drop_last() =~= Seq::<Statement>::empty());
    assert(t.last() == a.statements@.last());
    assert(own_statements(t.drop_last()) == 0);
}

/// Taking the next statement, one that stands on its own, then parsing its
/// body, lists one more root than the body did.
pub proof fn lemma_roots_track_pop_own(a: ASTParser, b: ASTParser, c: ASTParser)
    requires
        a.statements@.len() > 0,
        b.statements@ == a.statements@.drop_last(),
        b.ast.statement_root_node_ids == a.ast.statement_root_node_ids,
        !is_branch_statement(a.statements@.last()),
        roots_track(b, c),
        c.statements@.len() <= b.statements@.len(),
    ensures
        own_statements(a.statements@.subrange(c.statements@.len() as int, a.statements@.len() as int)) == own_statements(
            b.statements@.subrange(c.statements@.len() as int, b.statements@.len() as int),
        ) + 1,
{
    let t = a.statements@.subrange(c.statements@.len() as int, a.statements@.len() as int);
    assert(t.drop_last() =~= b.statements@.subrange(c.statements@.len() as int, b.statements@.len() as int));
    assert(t.last() == a.statements@.last());
}

/// Root tracking composes along parsing steps.
pub proof fn lemma_roots_track_trans(a: ASTParser, b: ASTParser, c: ASTParser)
    requires
        roots_track(a, b),
        roots_track(b, c),
        b.statements@.len() <= a.statements@.len(),
        forall|i: int| 0 <= i < b.statements@.len() ==> b.statements@[i] == a.statements@[i],
        c.statements@.len() <= b.statements@.len(),
    ensures
        roots_track(a, c),
{
    let (x, y, z) = (c.statements@.len() as int, b.statements@.len() as int, a.statements@.len() as int);
    assert(b.statements@.subrange(x, y) =~= a.statements@.subrange(x, y));
    lemma_own_statements_split(a.statements@, x, y, z);
}

/// The indentation level of a line, from its indentation token.
pub open spec fn line_indent(toks: Seq<Token>) -> usize {
    match toks[0].token_type {
        TokenType::Indent(n) => n,
        _ => 0,
    }
}

/// A line that opens a body: a function, an `if`, a `while` or a `for`.
pub open spec fn compound_line(toks: Seq<Token>) -> bool {
    let t = toks[1].token_type;
    t is Fn || t is If || t is While || t is For
}

/// The line's own tokens parse: `fn name()` without a return type; `if`
/// or `while` and a simple expression; `for name in` and a simple
/// expression; or else a simple expression.
pub open spec fn header_ok(toks: Seq<Token>) -> bool {
    match toks[1].token_type {
        TokenType::Fn => toks.len() > 4 && toks[2].token_type is Identifier && toks[3].token_type is OpenParen
            && toks[4].token_type is CloseParen && !(toks.len() > 5 && toks[5].token_type is RightArrow),
        TokenType::If => simple_expression_at(toks, 2),
        TokenType::While => simple_expression_at(toks, 2),
        TokenType::For => toks.len() > 4 && toks[2].token_type is Identifier && toks[3].token_type is In
            && simple_expression_at(toks, 4),
        _ => simple_expression_at(toks, 1),
    }
}

/// A line that opens a body has an empty one: the next line, if any, is
/// not indented more deeply, and does not continue an `if`.
pub open spec fn ends_flat(toks: Seq<Token>, next: Option<Seq<Token>>) -> bool {
    compound_line(toks) ==> (next matches Some(n) ==> line_indent(n) <= line_indent(toks) && (toks[1].token_type is If
        ==> !(n[1].token_type is Elif || n[1].token_type is Else)))
}

/// A program of such lines, each statement on one line.
pub open spec fn flat_lines(lines: Seq<Seq<Token>>) -> bool {
    forall|i: int| 0 <= i < lines.len() ==> header_ok(#[trigger] lines[i]) && ends_flat(
        lines[i],
        if i + 1 < lines.len() {
            Some(lines[i + 1])
        } else {
            None
        },
    )
}

/// No node from `from` on is a loop, an index or a member access, and no
/// function defined there declares a return type.
pub open spec fn without_loops_from(ast: AST, from: int) -> bool {
    forall|i: int| from <= i < ast.node_arena@.len() ==> {
        let t = #[trigger] ast.node_arena@[i].node_type;
        &&& !(t is While) && !(t is For) && !(t is Index) && !(t is Access)
        &&& t matches ASTNodeType::FunctionDef(f) ==> f.return_type is None
    }
}

/// Such nodes, then more of them: all of them are.
pub proof fn lemma_without_loops_compose(a: AST, b: AST, from: int)
    requires
        0 <= from,
        ast_extends(a, b),
        without_loops_from(a, from),
        without_loops_from(b, a.node_arena@.len() as int),
    ensures
        without_loops_from(b, from),
{
    assert forall|i: int| from <= i < b.node_arena@.len() implies {
        let t = #[trigger] b.node_arena@[i].node_type;
        &&& !(t is While) && !(t is For) && !(t is Index) && !(t is Access)
        &&& t matches ASTNodeType::FunctionDef(f) ==> f.return_type is None
    } by {
        if i < a.node_arena@.len() {
            assert(b.node_arena@[i] == a.node_arena@[i]);
        }
    }
}

/// A line that is not a loop.
pub open spec fn loop_free_line(toks: Seq<Token>) -> bool {
    !(toks[1].token_type is While) && !(toks[1].token_type is For)
}

/// The node `id` is what the line `toks` says, for a line whose body is
/// empty: a function definition of that name without parameters or return
/// type; a `for`; an `if` with one branch and no
/// `else`, or a `while`, whose condition the tokens after the keyword spell;
/// otherwise the expression that the tokens after the indentation spell, up
/// to the end of the expression.
pub open spec fn statement_node_matches(ast: AST, id: ASTNodeId, toks: Seq<Token>) -> bool {
    &&& 0 <= id.0 < ast.node_arena@.len()
    &&& match toks[1].token_type {
        TokenType::Fn => ast.node_arena@[id.0 as int].node_type matches ASTNodeType::FunctionDef(f) && f.name == toks[2].symbol
            && f.params@.len() == 0 && f.return_type is None && f.body.statements@.len() == 0,
        TokenType::If => ast.node_arena@[id.0 as int].node_type matches ASTNodeType::If(n) && {
            &&& n.condition_blocks@.len() == 1
            &&& n.condition_blocks@[0].body.statements@.len() == 0
            &&& n.else_body is None
            &&& spells(ast, n.condition_blocks@[0].condition, toks.subrange(2, expression_end(toks, 2)))
        },
        TokenType::While => ast.node_arena@[id.0 as int].node_type matches ASTNodeType::While(w)
            && w.body.statements@.len() == 0 && spells(ast, w.condition, toks.subrange(2, expression_end(toks, 2))),
        TokenType::For => ast.node_arena@[id.0 as int].node_type is For,
        _ => spells(ast, id, toks.subrange(1, expression_end(toks, 1))),
    }
}

/// A node keeps matching its line as the AST grows.
pub proof fn lemma_statement_node_extend(a: AST, b: AST, id: ASTNodeId, toks: Seq<Token>)
    requires
        ast_extends(a, b),
        statement_node_matches(a, id, toks),
    ensures
        statement_node_matches(b, id, toks),
{
    assert(b.node_arena@[id.0 as int] == a.node_arena@[id.0 as int]);
    if !compound_line(toks) {
        lemma_spells_extend(a, b, id, toks.subrange(1, expression_end(toks, 1)));
    }
    match a.node_arena@[id.0 as int].node_type {
        ASTNodeType::If(n) => {
            if toks[1].token_type is If {
                lemma_spells_extend(a, b, n.condition_blocks@[0].condition, toks.subrange(2, expression_end(toks, 2)));
            }
        },
        ASTNodeType::While(w) => {
            if toks[1].token_type is While {
                lemma_spells_extend(a, b, w.condition, toks.subrange(2, expression_end(toks, 2)));
            }
        },
        _ => {},
    }
}

/// The statements still to parse, the next one last, form such a program.
pub open spec fn flat_statements(ss: Seq<Statement>) -> bool {
    forall|i: int| 0 <= i < ss.len() ==> header_ok((#[trigger] ss[i]).tokens@) && ends_flat(
        ss[i].tokens@,
        if i > 0 {
            Some(ss[i - 1].tokens@)
        } else {
            None
        },
    )
}

/// No statement follows `s` that is indented more deeply: its body is
/// empty.
pub open spec fn no_body(statements: Seq<Statement>, s: Statement) -> bool {
    statements.len() == 0 || statements.last().indent_size <= s.indent_size
}

impl ASTParser {
    /// The parser's invariant: a well-formed AST whose scopes exist in the
    /// symbol table, and well-formed statements.
    pub open spec fn wf(&self, table: SymbolTable) -> bool {
        &&& self.ast.wf()
        &&& self.ast.scopes_below(table.scopes@.len() as int)
        &&& self.ast.names_below(self.symbol_bound@)
        &&& forall|i: int| 0 <= i < self.statements@.len() ==> (#[trigger] self.statements@[i]).wf()
        &&& statements_symbols_below(self.statements@, self.symbol_bound@)
    }

    /// A parser with an empty AST over `statements`, the first statement to
    /// be parsed first.
    pub fn new(statements: SourceStatements, symbol_bound: Ghost<nat>) -> (r: Self)
        requires
            statements.wf(),
            statements_symbols_below(statements.0@, symbol_bound@),
        ensures
            r.symbol_bound == symbol_bound,
            statements_symbols_below(r.statements@, symbol_bound@),
            r.ast.node_arena@.len() == 0,
            r.ast.statement_root_node_ids@.len() == 0,
            r.ast.wf(),
            r.statements@ == statements.0@.reverse(),
            forall|i: int| 0 <= i < r.statements@.len() ==> (#[trigger] r.statements@[i]).wf(),
    {
        let SourceStatements(mut list) = statements;
        let ghost all = list@;
        let mut rev: Vec<Statement> = Vec::new();
        while list.len() > 0
            invariant
                list@.len() + rev@.len() == all.len(),
                forall|i: int| 0 <= i < list@.len() ==> list@[i] == all[i],
                forall|i: int| 0 <= i < rev@.len() ==> rev@[i] == all[all.len() - 1 - i],
                forall|i: int| 0 <= i < all.len() ==> (#[trigger] all[i]).wf(),
                statements_symbols_below(all, symbol_bound@),
            decreases list@.len(),
        {
            let s = list.pop().unwrap();
            rev.push(s);
        }
        assert(rev@ =~= all.reverse());
        Self { ast: AST::new(), statements: rev, symbol_bound }
    }

    /// Whether the next statement starts, after its indentation, with a
    /// token of kind `token_type`.
    fn next_starts_with(&self, token_type: TokenType) -> (r: bool)
        requires
            forall|i: int| 0 <= i < self.statements@.len() ==> (#[trigger] self.statements@[i]).wf(),
        ensures
            r == (self.statements@.len() > 0 && self.statements@.last().tokens@[1].token_type == token_type),
    {
        match self.statements.last() {
            Some(statement) => statement.token_after_indent_matches(token_type),
            None => false,
        }
    }

    /// Parses the statements that follow `statement` and are indented more
    /// deeply, as its body in scope `scope_id`.
    fn parse_children(&mut self, table: &mut SymbolTable, statement: &Statement, scope_id: ScopeId) -> (r: Result<Vec<ASTNodeId>, CompilerError>)
        requires
            old(self).wf(*old(table)),
            old(table).wf(),
            scope_id.0 < old(table).scopes@.len(),
        ensures
            (old(self).statements@.len() > 0 && old(self).statements@.last().indent_size > statement.indent_size + 1)
                ==> r == Err::<Vec<ASTNodeId>, CompilerError>(
                CompilerError {
                    error_type: ErrorKind::Syntax(SyntaxError::IndentTooLarge),
                    span: old(self).statements@.last().tokens@[0].span,
                },
            ),
            scopes_extend(*old(table), *final(table)),
            parser_step(*old(self), *final(self), *final(table)),
            r is Ok ==> roots_track(*old(self), *final(self)),
            r matches Ok(ids) ==> forall|i: int| 0 <= i < ids@.len() ==> (#[trigger] ids@[i]).0
                < final(self).ast.node_arena@.len(),
            r matches Ok(_) ==> final(self).statements@.len() == 0
                || final(self).statements@.last().indent_size <= statement.indent_size,
            no_body(old(self).statements@, *statement) ==> (r matches Ok(v) && v@.len() == 0) && *final(self) == *old(self)
                && *final(table) == *old(table),
            (0 < after_body(old(self).statements@, statement.indent_size) && old(self).statements@[after_body(old(self).statements@, statement.indent_size) - 1].indent_size
                > statement.indent_size + 1) ==> r is Err,
            r matches Ok(ids) ==> final(self).statements@.len() == after_body(old(self).statements@, statement.indent_size)
                && ids@.len() == body_statements(old(self).statements@, statement.indent_size).len()
                && forall|k: int| 0 <= k < ids@.len() ==> node_kind_matches(final(self).ast, #[trigger] ids@[k],
                body_statements(old(self).statements@, statement.indent_size)[k]),
            body_parses(old(self).statements@, statement.indent_size) ==> r is Ok,
            r matches Ok(ids) ==> ids_tree_matches(final(self).ast, ids@, old(self).statements@, statement.indent_size),
        decreases old(self).statements@.len(), 1nat,
    {
        let indent_size = statement.indent_size;
        let mut children: Vec<ASTNodeId> = Vec::new();
        let ghost mut done: Seq<Statement> = Seq::empty();
        let ghost mut done_rests: Seq<Seq<Statement>> = Seq::empty();
        proof {
            assert(body_statements(old(self).statements@, indent_size) =~= done + body_statements(self.statements@, indent_size));
            assert(body_rests(old(self).statements@, indent_size) =~= done_rests + body_rests(self.statements@, indent_size));
            lemma_roots_track_refl(*self);
            reveal(after_body);
            reveal(body_statements);
        }
        loop
            invariant
                table.wf(),
                scope_id.0 < table.scopes@.len(),
                scopes_extend(*old(table), *table),
                parser_step(*old(self), *self, *table),
                roots_track(*old(self), *self),
                indent_size == statement.indent_size,
                forall|i: int| 0 <= i < children@.len() ==> (#[trigger] children@[i]).0 < self.ast.node_arena@.len(),
                no_body(old(self).statements@, *statement) ==> *self == *old(self) && *table == *old(table) && children@.len() == 0,
                (old(self).statements@.len() > 0 && old(self).statements@.last().indent_size > statement.indent_size + 1)
                    ==> *self == *old(self) && children@.len() == 0,
                after_body(self.statements@, indent_size) == after_body(old(self).statements@, indent_size),
                children@.len() + body_statements(self.statements@, indent_size).len() == body_statements(old(self).statements@, indent_size).len(),
                body_statements(old(self).statements@, indent_size) == done + body_statements(self.statements@, indent_size),
                done.len() == children@.len(),
                forall|k: int| 0 <= k < children@.len() ==> node_kind_matches(self.ast, #[trigger] children@[k], done[k]),
                body_parses(old(self).statements@, indent_size) ==> body_parses(self.statements@, indent_size),
                body_rests(old(self).statements@, indent_size) == done_rests + body_rests(self.statements@, indent_size),
                done_rests.len() == children@.len(),
                forall|k: int| 0 <= k < children@.len() ==> (#[trigger] done_rests[k]).len() < old(self).statements@.len()
                    && subtree_matches(self.ast, children@[k], done_rests[k], done[k]),
            ensures
                self.statements@.len() == 0 || self.statements@.last().indent_size <= statement.indent_size,
            decreases self.statements@.len(),
        {
            let child_indent = match self.statements.last() {
                Some(child) => child.indent_size,
                None => break,
            };
            if child_indent <= indent_size {
                break;
            }
            if indent_size + 1 < child_indent {
                let n = self.statements.len();
                let span = self.statements[n - 1].indent_token().span;
                assert(old(self).statements@[n - 1] == self.statements@[n - 1]);
                proof {
                    lemma_body_parses_step(self.statements@, indent_size);
                }
                return Err(SyntaxError::IndentTooLarge.at(span));
            }
            let ghost mid = *self;
            let ghost mid_table = *table;
            proof {
                assert(self.statements@.last().indent_size == child_indent);
                lemma_body_parses_step(self.statements@, indent_size);
            }
            let child = self.parse_next_statement_ast_node(table, scope_id)?;
            proof {
                crate::ast::arena_ast::lemma_ast_extends_trans(old(self).ast, mid.ast, self.ast);
                lemma_roots_track_trans(*old(self), mid, *self);
                assert(self.statements@ =~= mid.statements@.subrange(0, self.statements@.len() as int));
                reveal(after_statement);
                reveal(after_branches);
                reveal_with_fuel(after_body, 2);
                reveal_with_fuel(body_statements, 2);
                let ss = mid.statements@;
                assert(ss.len() > 0);
                assert(ss.last().indent_size == child_indent);
                let e = after_statement(ss.drop_last(), ss.last());
                assert(e == self.statements@.len());
                assert(0 <= e < ss.len());
                assert(ss.subrange(0, e) == self.statements@);
                assert(ss.last().indent_size > indent_size && ss.last().indent_size <= indent_size + 1);
                assert(after_body(ss, indent_size) == after_body(ss.subrange(0, e), indent_size));
                assert(after_body(mid.statements@, indent_size) == after_body(self.statements@, indent_size));
                assert(body_statements(ss, indent_size) == seq![ss.last()] + body_statements(ss.subrange(0, e), indent_size));
                assert(body_statements(mid.statements@, indent_size).len() == body_statements(self.statements@, indent_size).len() + 1);
                let old_done = done;
                done = done.push(ss.last());
                assert(old_done + (seq![ss.last()] + body_statements(self.statements@, indent_size)) =~= done + body_statements(self.statements@, indent_size));
                reveal_with_fuel(body_rests, 2);
                assert(body_rests(ss, indent_size) == seq![ss.drop_last()] + body_rests(ss.subrange(0, e), indent_size));
                let old_rests = done_rests;
                done_rests = done_rests.push(ss.drop_last());
                assert(old_rests + (seq![ss.drop_last()] + body_rests(self.statements@, indent_size)) =~= done_rests + body_rests(self.statements@, indent_size));
                if body_parses(old(self).statements@, indent_size) {
                    assert(body_parses(ss, indent_size));
                    assert(body_parses(self.statements@, indent_size));
                }
            }
            let ghost old_children = children@;
            if let Some(child) = child {
                children.push(child);
            }
            proof {
                assert forall|k: int| 0 <= k < children@.len() implies node_kind_matches(self.ast, #[trigger] children@[k], done[k]) by {
                    if k < old_children.len() {
                        assert(children@[k] == old_children[k]);
                        assert(self.ast.node_arena@[children@[k].0 as int] == mid.ast.node_arena@[children@[k].0 as int]);
                    }
                }
                assert forall|k: int| 0 <= k < children@.len() implies (#[trigger] done_rests[k]).len() < old(self).statements@.len()
                    && subtree_matches(self.ast, children@[k], done_rests[k], done[k]) by {
                    if k < old_children.len() {
                        assert(children@[k] == old_children[k]);
                        lemma_subtree_extend(mid.ast, self.ast, children@[k], done_rests[k], done[k]);
                    }
                }
            }
        }
        proof {
            reveal(body_rests);
            reveal(body_statements);
            assert(body_rests(self.statements@, indent_size).len() == 0);
            assert(done_rests =~= body_rests(old(self).statements@, indent_size));
            assert(done =~= body_statements(old(self).statements@, indent_size));
            reveal(ids_tree_matches);
            reveal(subtree_matches);
        }
        Ok(children)
    }

    fn parse_function_def(&mut self, table: &mut SymbolTable, func_def_statement: Statement, scope_id: ScopeId) -> (r: Result<ASTNodeId, CompilerError>)
        requires
            old(self).wf(*old(table)),
            old(table).wf(),
            scope_id.0 < old(table).scopes@.len(),
            func_def_statement.wf(),
            func_def_statement.tokens@[1].token_type is Fn,
            symbols_below(func_def_statement.tokens@, old(self).symbol_bound@),
        ensures
            scopes_extend(*old(table), *final(table)),
            parser_step(*old(self), *final(self), *final(table)),
            r is Ok ==> roots_track(*old(self), *final(self)),
            r matches Ok(id) ==> id.0 < final(self).ast.node_arena@.len()
                && final(self).ast.node_arena@[id.0 as int].node_type is FunctionDef
                && final(self).ast.node_arena@[id.0 as int].scope_id == scope_id,
            (func_def_statement.tokens@.len() > 4 && func_def_statement.tokens@[2].token_type is Identifier
                && func_def_statement.tokens@[3].token_type is OpenParen && func_def_statement.tokens@[4].token_type is CloseParen
                && !(func_def_statement.tokens@.len() > 5 && func_def_statement.tokens@[5].token_type is RightArrow)
                && no_body(old(self).statements@, func_def_statement)) ==> r is Ok,
            (func_def_statement.tokens@.len() > 4 && func_def_statement.tokens@[2].token_type is Identifier
                && func_def_statement.tokens@[3].token_type is OpenParen && func_def_statement.tokens@[4].token_type is CloseParen
                && !(func_def_statement.tokens@.len() > 5 && func_def_statement.tokens@[5].token_type is RightArrow)
                && no_body(old(self).statements@, func_def_statement)) ==> without_loops_from(final(self).ast, old(self).ast.node_arena@.len() as int)
                && (r matches Ok(id) && final(self).ast.node_arena@[id.0 as int].node_type matches ASTNodeType::FunctionDef(f)
                && f.name == func_def_statement.tokens@[2].symbol && f.params@.len() == 0 && f.return_type is None
                && f.body.statements@.len() == 0),
            no_body(old(self).statements@, func_def_statement) ==> final(self).statements@ == old(self).statements@
                && final(self).ast.statement_root_node_ids == old(self).ast.statement_root_node_ids,
            r matches Ok(id) ==> final(self).statements@.len() == after_body(old(self).statements@, func_def_statement.indent_size)
                && (final(self).ast.node_arena@[id.0 as int].node_type matches ASTNodeType::FunctionDef(f)
                && f.body.statements@.len() == body_statements(old(self).statements@, func_def_statement.indent_size).len()
                && forall|k: int| 0 <= k < f.body.statements@.len() ==> node_kind_matches(final(self).ast,
                #[trigger] f.body.statements@[k], body_statements(old(self).statements@, func_def_statement.indent_size)[k])),
            (func_def_statement.tokens@.len() > 4 && func_def_statement.tokens@[2].token_type is Identifier
                && func_def_statement.tokens@[3].token_type is OpenParen && func_def_statement.tokens@[4].token_type is CloseParen
                && !(func_def_statement.tokens@.len() > 5 && func_def_statement.tokens@[5].token_type is RightArrow)
                && body_parses(old(self).statements@, func_def_statement.indent_size)) ==> r is Ok,
            r matches Ok(id) ==> subtree_matches(final(self).ast, id, old(self).statements@, func_def_statement),
        decreases old(self).statements@.len(), 2nat,
    {
        let mut token_stream = func_def_statement.suffix_stream(2);
        let name = parse_function_name(&mut token_stream)?;
        let body_scope_id = table.add_scope_with_parent(scope_id, Some(name));
        let params = parse_parameters(&mut token_stream)?;
        let return_type = parse_return_type(&mut token_stream)?;
        proof {
            lemma_scopes_below_grow(self.ast, old(table).scopes@.len() as int, table.scopes@.len() as int);
        }
        let body_nodes = self.parse_children(table, &func_def_statement, body_scope_id)?;
        let ghost body_ids = body_nodes@;
        let body = Block::new(body_nodes, body_scope_id);
        let span = func_def_statement.full_span();
        let node = FunctionDefNode::new(name, params, body, return_type).at(span, scope_id);
        let ghost before_add = self.ast;
        proof {
            assert forall|j: int| 0 <= j < node.node_type->FunctionDef_0.params@.len() implies (#[trigger] node.node_type->FunctionDef_0.params@[j]).type_annotation.type_symbol
                < self.symbol_bound@ by {
                let k = choose|k: int| 0 <= k < func_def_statement.tokens@.len()
                    && (#[trigger] func_def_statement.tokens@[k]).symbol == node.node_type->FunctionDef_0.params@[j].type_annotation.type_symbol;
            }
        }
        let id = self.ast.add_node(node);
        proof {
            lemma_ids_tree_extend(before_add, self.ast, body_ids, old(self).statements@, func_def_statement.indent_size);
            reveal(subtree_matches);
            reveal(ids_tree_matches);
            lemma_add_node_scopes(old(self).ast, self.ast, table.scopes@.len() as int);
            lemma_add_node_names(before_add, self.ast, self.symbol_bound@);
        }
        Ok(id)
    }

    #[verifier::rlimit(40)]
    fn parse_if_statement(&mut self, table: &mut SymbolTable, if_statement: Statement, scope_id: ScopeId) -> (r: Result<ASTNodeId, CompilerError>)
        requires
            old(self).wf(*old(table)),
            old(table).wf(),
            scope_id.0 < old(table).scopes@.len(),
            if_statement.wf(),
            if_statement.tokens@[1].token_type is If,
            symbols_below(if_statement.tokens@, old(self).symbol_bound@),
        ensures
            scopes_extend(*old(table), *final(table)),
            parser_step(*old(self), *final(self), *final(table)),
            r is Ok ==> roots_track(*old(self), *final(self)),
            r matches Ok(id) ==> id.0 < final(self).ast.node_arena@.len()
                && final(self).ast.node_arena@[id.0 as int].node_type is If
                && final(self).ast.node_arena@[id.0 as int].scope_id == scope_id,
            (simple_expression_at(if_statement.tokens@, 2) && no_body(old(self).statements@, if_statement) && !(old(self).statements@.len()
                > 0 && is_branch_statement(old(self).statements@.last()))) ==> r is Ok,
            r matches Ok(id) ==> (final(self).ast.node_arena@[id.0 as int].node_type matches ASTNodeType::If(n) && {
                &&& final(self).ast.node_arena@[id.0 as int].span.start == if_statement.tokens@[1].span.start
                &&& final(self).ast.node_arena@[id.0 as int].span.end == if_statement.tokens@[if_statement.tokens@.len() - 1].span.end
                &&& n.condition_blocks@.len() >= 1
                &&& forall|i: int| 0 <= i < n.condition_blocks@.len() ==> {
                    &&& old(table).scopes@.len() <= (#[trigger] n.condition_blocks@[i]).body.scope_id.0 < final(table).scopes@.len()
                    &&& final(table).scopes@[n.condition_blocks@[i].body.scope_id.0 as int].parent == Some(scope_id)
                    &&& old(self).ast.node_arena@.len() <= n.condition_blocks@[i].condition.0
                }
                &&& n.else_body matches Some(b) ==> old(table).scopes@.len() <= b.scope_id.0 < final(table).scopes@.len()
                    && final(table).scopes@[b.scope_id.0 as int].parent == Some(scope_id)
                &&& n.else_body is None ==> !(final(self).statements@.len() > 0 && is_branch_statement(final(self).statements@.last()))
            }),
            (simple_expression_at(if_statement.tokens@, 2) && no_body(old(self).statements@, if_statement) && !(old(self).statements@.len()
                > 0 && is_branch_statement(old(self).statements@.last()))) ==> without_loops_from(final(self).ast, old(self).ast.node_arena@.len() as int)
                && (r matches Ok(id) && final(self).ast.node_arena@[id.0 as int].node_type matches ASTNodeType::If(n) && {
                    &&& n.condition_blocks@.len() == 1
                    &&& n.condition_blocks@[0].body.statements@.len() == 0
                    &&& n.else_body is None
                    &&& spells(final(self).ast, n.condition_blocks@[0].condition, if_statement.tokens@.subrange(2, expression_end(if_statement.tokens@, 2)))
                }),
            (no_body(old(self).statements@, if_statement) && !(old(self).statements@.len() > 0 && is_branch_statement(
                old(self).statements@.last()))) ==> final(self).statements@ == old(self).statements@
                && final(self).ast.statement_root_node_ids == old(self).ast.statement_root_node_ids,
            r matches Ok(id) ==> final(self).statements@.len() == after_statement(old(self).statements@, if_statement)
                && (final(self).ast.node_arena@[id.0 as int].node_type matches ASTNodeType::If(n) && if_node_matches(
                final(self).ast,
                n,
                if_statement,
                old(self).statements@,
            )),
            statement_parses(old(self).statements@, if_statement) ==> r is Ok,
            r matches Ok(id) ==> subtree_matches(final(self).ast, id, old(self).statements@, if_statement),
        decreases old(self).statements@.len(), 2nat,
    {
        proof {
            reveal(after_statement);
            reveal(after_branches);
            reveal(elif_branches);
            reveal(else_branch);
            if statement_parses(old(self).statements@, if_statement) {
                lemma_statement_parses_parts(old(self).statements@, if_statement);
            }
        }
        let ghost d = if_statement.indent_size;
        let ghost cond_spelled = if_statement.tokens@.subrange(2, expression_end(if_statement.tokens@, 2));
        let mut cond_stream = if_statement.suffix_stream(2);
        let if_cond = ExpressionParser::parse(&mut cond_stream, &mut self.ast, scope_id)?;
        let if_body_scope_id = table.add_scope_with_parent(scope_id, None);
        proof {
            lemma_expression_scopes(old(self).ast, self.ast, scope_id, table.scopes@.len() as int);
            lemma_expression_names(old(self).ast, self.ast, scope_id, self.symbol_bound@);
        }
        let ghost after_cond = self.ast;
        let if_body_nodes = self.parse_children(table, &if_statement, if_body_scope_id)?;
        let ghost first_ids = if_body_nodes@;
        let ghost first_ast = self.ast;
        let if_body = Block::new(if_body_nodes, if_body_scope_id);
        let mut condition_blocks: Vec<ConditionBlock> = Vec::new();
        condition_blocks.push(ConditionBlock::new(if_cond, if_body));
        let ghost first = *self;
        let ghost first_block = condition_blocks@[0];
        let ghost rest_b = self.statements@;
        let ghost mut done: Seq<(Statement, Seq<Statement>)> = Seq::empty();
        let ghost mut done_erests: Seq<Seq<Statement>> = Seq::empty();
        proof {
            reveal(elif_rests);
            reveal(else_part);
            assert(elif_rests(rest_b) =~= done_erests + elif_rests(self.statements@));
            assert(condition_blocks@ =~= seq![first_block]);
            assert(elif_branches(rest_b) =~= done + elif_branches(self.statements@));
            assert(rest_b =~= old(self).statements@.subrange(0, rest_b.len() as int));
            if simple_expression_at(if_statement.tokens@, 2) {
                lemma_spells_extend(after_cond, self.ast, if_cond, cond_spelled);
            }
            if simple_expression_at(if_statement.tokens@, 2) && no_body(old(self).statements@, if_statement) {
                assert(without_loops_from(self.ast, old(self).ast.node_arena@.len() as int));
            }
        }
        loop
            invariant
                table.wf(),
                scope_id.0 < table.scopes@.len(),
                scopes_extend(*old(table), *table),
                parser_step(*old(self), *self, *table),
                roots_track(*old(self), *self),
                forall|i: int| 0 <= i < condition_blocks@.len() ==> {
                    &&& (#[trigger] condition_blocks@[i]).condition.0 < self.ast.node_arena@.len()
                    &&& condition_blocks@[i].body.ids_below(self.ast.node_arena@.len() as int)
                    &&& condition_blocks@[i].body.scope_id.0 < table.scopes@.len()
                    &&& old(table).scopes@.len() <= condition_blocks@[i].body.scope_id.0
                    &&& table.scopes@[condition_blocks@[i].body.scope_id.0 as int].parent == Some(scope_id)
                    &&& old(self).ast.node_arena@.len() <= condition_blocks@[i].condition.0
                },
                condition_blocks@.len() >= 1,
                (no_body(old(self).statements@, if_statement) && !(old(self).statements@.len()
                    > 0 && is_branch_statement(old(self).statements@.last()))) ==> self.statements@ == old(self).statements@
                    && self.ast.statement_root_node_ids == old(self).ast.statement_root_node_ids && self.ast == first.ast,
                (simple_expression_at(if_statement.tokens@, 2) && no_body(old(self).statements@, if_statement))
                    ==> without_loops_from(first.ast, old(self).ast.node_arena@.len() as int)
                    && spells(first.ast, first_block.condition, if_statement.tokens@.subrange(2, expression_end(if_statement.tokens@, 2))),
                no_body(old(self).statements@, if_statement) ==> first_block.body.statements@.len() == 0,
                (no_body(old(self).statements@, if_statement) && !(old(self).statements@.len()
                    > 0 && is_branch_statement(old(self).statements@.last()))) ==> condition_blocks@ == seq![first_block],
                rest_b.len() == after_body(old(self).statements@, d),
                rest_b.len() <= old(self).statements@.len(),
                forall|k: int| 0 <= k < rest_b.len() ==> rest_b[k] == old(self).statements@[k],
                self.statements@.len() <= rest_b.len(),
                after_branches(self.statements@) == after_branches(rest_b),
                else_branch(self.statements@) == else_branch(rest_b),
                elif_branches(rest_b) == done + elif_branches(self.statements@),
                condition_blocks@.len() == done.len() + 1,
                condition_blocks@[0] == first_block,
                first_block.condition == if_cond,
                body_matches(self.ast, first_block.body, body_statements(old(self).statements@, d)),
                simple_expression_at(if_statement.tokens@, 2) ==> spells(self.ast, if_cond, cond_spelled),
                forall|k: int| 0 <= k < done.len() ==> {
                    &&& body_matches(self.ast, (#[trigger] condition_blocks@[k + 1]).body, done[k].1)
                    &&& simple_expression_at(done[k].0.tokens@, 2) ==> spells(self.ast, condition_blocks@[k + 1].condition,
                        done[k].0.tokens@.subrange(2, expression_end(done[k].0.tokens@, 2)))
                },
                statement_parses(old(self).statements@, if_statement) ==> branches_parse(self.statements@),
                ids_tree_matches(self.ast, first_ids, old(self).statements@, d),
                first_block.body.statements@ == first_ids,
                else_part(self.statements@) == else_part(rest_b),
                elif_rests(rest_b) == done_erests + elif_rests(self.statements@),
                done_erests.len() == done.len(),
                forall|k: int| 0 <= k < done.len() ==> (#[trigger] done_erests[k]).len() < old(self).statements@.len()
                    && ids_tree_matches(self.ast, condition_blocks@[k + 1].body.statements@, done_erests[k], done[k].0.indent_size),
            ensures
                !(self.statements@.len() > 0 && self.statements@.last().tokens@[1].token_type is Elif),
            decreases self.statements@.len(),
        {
            if !self.next_starts_with(TokenType::Elif) {
                break;
            }
            let ghost before_pop = *self;
            proof {
                if statement_parses(old(self).statements@, if_statement) {
                    lemma_branches_parse_step(self.statements@);
                }
            }
            let elif_statement = self.statements.pop().unwrap();
            let ghost before = *self;
            proof {
                lemma_roots_track_branch(before_pop, before);
                lemma_roots_track_trans(*old(self), before_pop, before);
            }
            let ghost before_table = *table;
            let mut elif_stream = elif_statement.suffix_stream(2);
            let elif_cond = ExpressionParser::parse(&mut elif_stream, &mut self.ast, scope_id)?;
            let elif_body_scope_id = table.add_scope_with_parent(scope_id, None);
            proof {
                lemma_expression_scopes(before.ast, self.ast, scope_id, table.scopes@.len() as int);
                lemma_expression_names(before.ast, self.ast, scope_id, self.symbol_bound@);
            }
            let ghost mid = *self;
            let elif_body_nodes = self.parse_children(table, &elif_statement, elif_body_scope_id)?;
            let ghost elif_ids = elif_body_nodes@;
            proof {
                lemma_roots_track_trans(*old(self), mid, *self);
            }
            let elif_body = Block::new(elif_body_nodes, elif_body_scope_id);
            let ghost old_blocks = condition_blocks@;
            condition_blocks.push(ConditionBlock::new(elif_cond, elif_body));
            proof {
                let ss = before_pop.statements@;
                let e = self.statements@.len() as int;
                let branch = (elif_statement, body_statements(ss.drop_last(), elif_statement.indent_size));
                reveal(after_statement);
                reveal(after_body);
                reveal(after_branches);
                reveal(elif_branches);
                reveal(else_branch);
                assert(ss.last() == elif_statement);
                assert(self.statements@ =~= ss.subrange(0, e));
                assert(elif_branches(ss) == seq![branch] + elif_branches(ss.subrange(0, e)));
                assert(after_branches(ss) == after_branches(ss.subrange(0, e)));
                assert(else_branch(ss) == else_branch(ss.subrange(0, e)));
                reveal(elif_rests);
                reveal(else_part);
                assert(elif_rests(ss) == seq![ss.drop_last()] + elif_rests(ss.subrange(0, e)));
                assert(else_part(ss) == else_part(ss.subrange(0, e)));
                let old_erests = done_erests;
                done_erests = done_erests.push(ss.drop_last());
                assert(old_erests + (seq![ss.drop_last()] + elif_rests(self.statements@)) =~= done_erests + elif_rests(self.statements@));
                lemma_ids_tree_extend(before_pop.ast, self.ast, first_ids, old(self).statements@, d);
                let old_done = done;
                done = done.push(branch);
                assert(old_done + (seq![branch] + elif_branches(self.statements@)) =~= done + elif_branches(self.statements@));
                assert(ast_extends(before_pop.ast, self.ast));
                if simple_expression_at(if_statement.tokens@, 2) {
                    lemma_spells_extend(before_pop.ast, self.ast, if_cond, cond_spelled);
                }
                lemma_body_matches_extend(before_pop.ast, self.ast, first_block.body, body_statements(old(self).statements@, d));
                assert forall|k: int| 0 <= k < done.len() implies {
                    &&& body_matches(self.ast, (#[trigger] condition_blocks@[k + 1]).body, done[k].1)
                    &&& simple_expression_at(done[k].0.tokens@, 2) ==> spells(self.ast, condition_blocks@[k + 1].condition,
                        done[k].0.tokens@.subrange(2, expression_end(done[k].0.tokens@, 2)))
                } by {
                    if k < old_done.len() {
                        assert(condition_blocks@[k + 1] == old_blocks[k + 1]);
                        lemma_body_matches_extend(before_pop.ast, self.ast, old_blocks[k + 1].body, done[k].1);
                        if simple_expression_at(done[k].0.tokens@, 2) {
                            lemma_spells_extend(before_pop.ast, self.ast, old_blocks[k + 1].condition,
                                done[k].0.tokens@.subrange(2, expression_end(done[k].0.tokens@, 2)));
                        }
                    } else {
                        if simple_expression_at(done[k].0.tokens@, 2) {
                            lemma_spells_extend(mid.ast, self.ast, elif_cond,
                                done[k].0.tokens@.subrange(2, expression_end(done[k].0.tokens@, 2)));
                        }
                    }
                }
                assert(condition_blocks@[0] == old_blocks[0]);
                assert forall|k: int| 0 <= k < done.len() implies (#[trigger] done_erests[k]).len() < old(self).statements@.len()
                    && ids_tree_matches(self.ast, condition_blocks@[k + 1].body.statements@, done_erests[k], done[k].0.indent_size) by {
                    if k < old_done.len() {
                        assert(condition_blocks@[k + 1] == old_blocks[k + 1]);
                        lemma_ids_tree_extend(before_pop.ast, self.ast, old_blocks[k + 1].body.statements@, done_erests[k], done[k].0.indent_size);
                    } else {
                        assert(condition_blocks@[k + 1].body.statements@ == elif_ids);
                    }
                }
                if statement_parses(old(self).statements@, if_statement) {
                    lemma_branches_parse_step(ss);
                }
            }
        }
        let ghost loop_end = *self;
        let ghost mut else_ids: Seq<ASTNodeId> = Seq::empty();
        let ghost mut else_ast = self.ast;
        proof {
            reveal(elif_rests);
            assert(elif_rests(self.statements@) =~= Seq::<Seq<Statement>>::empty());
            assert(elif_rests(rest_b) =~= done_erests);
        }
        let else_body = if self.next_starts_with(TokenType::Else) {
            let ghost before_pop = *self;
            proof {
                if statement_parses(old(self).statements@, if_statement) {
                    lemma_branches_parse_step(self.statements@);
                }
            }
            let else_statement = self.statements.pop().unwrap();
            let ghost before = *self;
            proof {
                lemma_roots_track_branch(before_pop, before);
                lemma_roots_track_trans(*old(self), before_pop, before);
            }
            let else_body_scope_id = table.add_scope_with_parent(scope_id, None);
            proof {
                lemma_scopes_below_grow(self.ast, (table.scopes@.len() - 1) as int, table.scopes@.len() as int);
            }
            let else_body_nodes = self.parse_children(table, &else_statement, else_body_scope_id)?;
            proof {
                else_ids = else_body_nodes@;
                else_ast = self.ast;
                reveal(else_part);
                assert(else_part(loop_end.statements@) == Some((else_statement, loop_end.statements@.drop_last())));
            }
            proof {
                lemma_roots_track_trans(*old(self), before, *self);
                reveal(after_statement);
                reveal(after_body);
                reveal(after_branches);
                reveal(else_branch);
                reveal(elif_branches);
                let ss = loop_end.statements@;
                assert(ss.last() == else_statement);
                assert(before.statements@ == ss.drop_last());
                assert(after_branches(ss) == after_body(ss.drop_last(), else_statement.indent_size));
                assert(else_branch(ss) == Some(body_statements(ss.drop_last(), else_statement.indent_size)));
                assert(elif_branches(ss) =~= Seq::<(Statement, Seq<Statement>)>::empty());
            }
            Some(Block::new(else_body_nodes, else_body_scope_id))
        } else {
            proof {
                reveal(after_statement);
                reveal(after_body);
                reveal(after_branches);
                reveal(else_branch);
                reveal(elif_branches);
                let ss = loop_end.statements@;
                assert(after_branches(ss) == ss.len());
                assert(else_branch(ss) is None);
                reveal(else_part);
                assert(else_part(ss) is None);
                assert(elif_branches(ss) =~= Seq::<(Statement, Seq<Statement>)>::empty());
            }
            None
        };
        let node = IfNode::new(condition_blocks, else_body).at(if_statement.full_span(), scope_id);
        let ghost before_add = self.ast;
        let id = self.ast.add_node(node);
        proof {
            let n = node.node_type->If_0;
            assert(ast_extends(loop_end.ast, self.ast));
            if simple_expression_at(if_statement.tokens@, 2) {
                lemma_spells_extend(loop_end.ast, self.ast, if_cond, cond_spelled);
            }
            assert forall|k: int| 0 <= k < done.len() && simple_expression_at(done[k].0.tokens@, 2) implies spells(self.ast,
                n.condition_blocks@[k + 1].condition, done[k].0.tokens@.subrange(2, expression_end(done[k].0.tokens@, 2))) by {
                {
                    assert(n.condition_blocks@[k + 1] == condition_blocks@[k + 1]);
                    lemma_spells_extend(loop_end.ast, self.ast, condition_blocks@[k + 1].condition,
                        done[k].0.tokens@.subrange(2, expression_end(done[k].0.tokens@, 2)));
                }
            }
            assert(rest_b =~= old(self).statements@.subrange(0, rest_b.len() as int));
            assert(done + Seq::<(Statement, Seq<Statement>)>::empty() =~= done);
            lemma_body_matches_extend(loop_end.ast, self.ast, first_block.body, body_statements(old(self).statements@, d));
            if n.else_body is Some {
                lemma_body_matches_extend(before_add, self.ast, n.else_body->0, else_branch(rest_b)->0);
            }
            assert forall|k: int| 0 <= k < done.len() implies body_matches(self.ast, #[trigger] n.condition_blocks@[k + 1].body, done[k].1) by {
                assert(n.condition_blocks@[k + 1] == condition_blocks@[k + 1]);
                lemma_body_matches_extend(loop_end.ast, self.ast, condition_blocks@[k + 1].body, done[k].1);
            }
            assert(elif_branches(rest_b) == done);
            reveal(after_statement);
            assert(after_statement(old(self).statements@, if_statement) == after_branches(rest_b));
            assert(forall|k: int| 0 <= k < condition_blocks@.len() ==> n.condition_blocks@[k] == condition_blocks@[k]);
            if simple_expression_at(if_statement.tokens@, 2) && no_body(old(self).statements@, if_statement) && !(old(self).statements@.len()
                > 0 && is_branch_statement(old(self).statements@.last())) {
                lemma_spells_extend(before_add, self.ast, first_block.condition, if_statement.tokens@.subrange(2, expression_end(if_statement.tokens@, 2)));
            }
            lemma_add_node_scopes(old(self).ast, self.ast, table.scopes@.len() as int);
            lemma_add_node_names(before_add, self.ast, self.symbol_bound@);
            lemma_ids_tree_extend(loop_end.ast, self.ast, first_ids, old(self).statements@, d);
            assert forall|k: int| 0 <= k < done.len() implies (#[trigger] done_erests[k]).len() < old(self).statements@.len()
                && ids_tree_matches(self.ast, n.condition_blocks@[k + 1].body.statements@, done_erests[k], done[k].0.indent_size) by {
                assert(n.condition_blocks@[k + 1] == condition_blocks@[k + 1]);
                lemma_ids_tree_extend(loop_end.ast, self.ast, condition_blocks@[k + 1].body.statements@, done_erests[k], done[k].0.indent_size);
            }
            if n.else_body is Some {
                let ep = else_part(rest_b)->0;
                lemma_ids_tree_extend(else_ast, self.ast, else_ids, ep.1, ep.0.indent_size);
                assert(n.else_body->0.statements@ == else_ids);
            }
            assert(n.condition_blocks@[0].body.statements@ == first_ids);
            reveal(subtree_matches);
            reveal(ids_tree_matches);
        }
        Ok(id)
    }

    fn parse_while_loop(&mut self, table: &mut SymbolTable, while_statement: Statement, scope_id: ScopeId) -> (r: Result<ASTNodeId, CompilerError>)
        requires
            old(self).wf(*old(table)),
            old(table).wf(),
            scope_id.0 < old(table).scopes@.len(),
            while_statement.wf(),
            while_statement.tokens@[1].token_type is While,
            symbols_below(while_statement.tokens@, old(self).symbol_bound@),
        ensures
            scopes_extend(*old(table), *final(table)),
            parser_step(*old(self), *final(self), *final(table)),
            r is Ok ==> roots_track(*old(self), *final(self)),
            r matches Ok(id) ==> id.0 < final(self).ast.node_arena@.len()
                && final(self).ast.node_arena@[id.0 as int].node_type is While
                && final(self).ast.node_arena@[id.0 as int].scope_id == scope_id,
            (simple_expression_at(while_statement.tokens@, 2) && no_body(old(self).statements@, while_statement)) ==> r is Ok,
            (simple_expression_at(while_statement.tokens@, 2) && no_body(old(self).statements@, while_statement)) ==> (r matches Ok(id)
                && final(self).ast.node_arena@[id.0 as int].node_type matches ASTNodeType::While(w) && w.body.statements@.len() == 0
                && spells(final(self).ast, w.condition, while_statement.tokens@.subrange(2, expression_end(while_statement.tokens@, 2)))),
            no_body(old(self).statements@, while_statement) ==> final(self).statements@ == old(self).statements@
                && final(self).ast.statement_root_node_ids == old(self).ast.statement_root_node_ids,
            r matches Ok(id) ==> final(self).statements@.len() == after_body(old(self).statements@, while_statement.indent_size)
                && (final(self).ast.node_arena@[id.0 as int].node_type matches ASTNodeType::While(w)
                && w.body.statements@.len() == body_statements(old(self).statements@, while_statement.indent_size).len()
                && forall|k: int| 0 <= k < w.body.statements@.len() ==> node_kind_matches(final(self).ast,
                #[trigger] w.body.statements@[k], body_statements(old(self).statements@, while_statement.indent_size)[k])),
            (expr_end(while_statement.tokens@, 2, 0) is Some && body_parses(old(self).statements@, while_statement.indent_size)) ==> r is Ok,
            r matches Ok(id) ==> subtree_matches(final(self).ast, id, old(self).statements@, while_statement),
        decreases old(self).statements@.len(), 2nat,
    {
        let mut cond_stream = while_statement.suffix_stream(2);
        let while_cond = ExpressionParser::parse(&mut cond_stream, &mut self.ast, scope_id)?;
        let while_body_scope_id = table.add_scope_with_parent(scope_id, None);
        proof {
            lemma_expression_scopes(old(self).ast, self.ast, scope_id, table.scopes@.len() as int);
            lemma_expression_names(old(self).ast, self.ast, scope_id, self.symbol_bound@);
        }
        let while_body_nodes = self.parse_children(table, &while_statement, while_body_scope_id)?;
        let ghost body_ids = while_body_nodes@;
        let while_body = Block::new(while_body_nodes, while_body_scope_id);
        let node = WhileNode::new(while_cond, while_body).at(while_statement.full_span(), scope_id);
        let ghost before_add = self.ast;
        let id = self.ast.add_node(node);
        proof {
            lemma_ids_tree_extend(before_add, self.ast, body_ids, old(self).statements@, while_statement.indent_size);
            reveal(subtree_matches);
            reveal(ids_tree_matches);
            if simple_expression_at(while_statement.tokens@, 2) && no_body(old(self).statements@, while_statement) {
                lemma_spells_extend(before_add, self.ast, while_cond, while_statement.tokens@.subrange(2, expression_end(while_statement.tokens@, 2)));
            }
            lemma_add_node_scopes(old(self).ast, self.ast, table.scopes@.len() as int);
            lemma_add_node_names(before_add, self.ast, self.symbol_bound@);
        }
        Ok(id)
    }

    fn parse_for_loop(&mut self, table: &mut SymbolTable, for_statement: Statement, scope_id: ScopeId) -> (r: Result<ASTNodeId, CompilerError>)
        requires
            old(self).wf(*old(table)),
            old(table).wf(),
            scope_id.0 < old(table).scopes@.len(),
            for_statement.wf(),
            for_statement.tokens@[1].token_type is For,
            symbols_below(for_statement.tokens@, old(self).symbol_bound@),
        ensures
            scopes_extend(*old(table), *final(table)),
            parser_step(*old(self), *final(self), *final(table)),
            r is Ok ==> roots_track(*old(self), *final(self)),
            r matches Ok(id) ==> id.0 < final(self).ast.node_arena@.len()
                && final(self).ast.node_arena@[id.0 as int].node_type is For
                && final(self).ast.node_arena@[id.0 as int].scope_id == scope_id,
            (for_statement.tokens@.len() > 4 && for_statement.tokens@[2].token_type is Identifier && for_statement.tokens@[3].token_type is In
                && simple_expression_at(for_statement.tokens@, 4) && no_body(old(self).statements@, for_statement)) ==> r is Ok,
            no_body(old(self).statements@, for_statement) ==> final(self).statements@ == old(self).statements@
                && final(self).ast.statement_root_node_ids == old(self).ast.statement_root_node_ids,
            r matches Ok(id) ==> final(self).statements@.len() == after_body(old(self).statements@, for_statement.indent_size)
                && (final(self).ast.node_arena@[id.0 as int].node_type matches ASTNodeType::For(f)
                && f.body.statements@.len() == body_statements(old(self).statements@, for_statement.indent_size).len()
                && forall|k: int| 0 <= k < f.body.statements@.len() ==> node_kind_matches(final(self).ast,
                #[trigger] f.body.statements@[k], body_statements(old(self).statements@, for_statement.indent_size)[k])),
            (for_statement.tokens@.len() > 4 && for_statement.tokens@[2].token_type is Identifier && for_statement.tokens@[3].token_type is In
                && expr_end(for_statement.tokens@, 4, 0) is Some && body_parses(old(self).statements@, for_statement.indent_size)) ==> r is Ok,
            r matches Ok(id) ==> subtree_matches(final(self).ast, id, old(self).statements@, for_statement),
        decreases old(self).statements@.len(), 2nat,
    {
        let mut token_stream = for_statement.suffix_stream(2);
        let for_body_scope_id = table.add_scope_with_parent(scope_id, None);
        proof {
            lemma_scopes_below_grow(self.ast, old(table).scopes@.len() as int, table.scopes@.len() as int);
        }
        let item_identifier = token_stream.expect_next_identifier()?;
        let item_var = ForVariable::new(item_identifier.symbol, item_identifier.span);
        token_stream.expect_next_token(TokenType::In)?;
        let ghost before = self.ast;
        let iterator = ExpressionParser::parse(&mut token_stream, &mut self.ast, scope_id)?;
        proof {
            lemma_expression_scopes(before, self.ast, scope_id, table.scopes@.len() as int);
            lemma_expression_names(before, self.ast, scope_id, self.symbol_bound@);
        }
        let for_body_nodes = self.parse_children(table, &for_statement, for_body_scope_id)?;
        let ghost body_ids = for_body_nodes@;
        let for_body = Block::new(for_body_nodes, for_body_scope_id);
        let node = ForNode::new(item_var, iterator, for_body).at(for_statement.full_span(), scope_id);
        let ghost before_add = self.ast;
        let id = self.ast.add_node(node);
        proof {
            lemma_ids_tree_extend(before_add, self.ast, body_ids, old(self).statements@, for_statement.indent_size);
            reveal(subtree_matches);
            reveal(ids_tree_matches);
            lemma_add_node_scopes(old(self).ast, self.ast, table.scopes@.len() as int);
            lemma_add_node_names(before_add, self.ast, self.symbol_bound@);
        }
        Ok(id)
    }

    /// Parses the next statement, with its body if it has one, and lists it
    /// as a statement root. Returns `None` when no statement is left.
    fn parse_next_statement_ast_node(&mut self, table: &mut SymbolTable, scope_id: ScopeId) -> (r: Result<Option<ASTNodeId>, CompilerError>)
        requires
            old(self).wf(*old(table)),
            old(table).wf(),
            scope_id.0 < old(table).scopes@.len(),
        ensures
            scopes_extend(*old(table), *final(table)),
            parser_step(*old(self), *final(self), *final(table)),
            r is Ok ==> roots_track(*old(self), *final(self)),
            old(self).statements@.len() == 0 ==> r == Ok::<Option<ASTNodeId>, CompilerError>(None)
                && final(self).ast == old(self).ast,
            old(self).statements@.len() > 0 ==> final(self).statements@.len() < old(self).statements@.len()
                && (r is Ok ==> r->Ok_0 is Some),
            (old(self).statements@.len() > 0 && r is Ok) ==> final(self).statements@.len() == after_statement(
                old(self).statements@.drop_last(),
                old(self).statements@.last(),
            ),
            r matches Ok(Some(id)) ==> {
                &&& id.0 < final(self).ast.node_arena@.len()
                &&& final(self).ast.statement_root_node_ids@.last() == id
                &&& final(self).ast.statement_root_node_ids@.len() > 0
                &&& node_kind_matches(final(self).ast, id, old(self).statements@.last())
            },
            (old(self).statements@.len() > 0 && header_ok(old(self).statements@.last().tokens@) && ends_flat(
                old(self).statements@.last().tokens@,
                if old(self).statements@.len() > 1 {
                    Some(old(self).statements@[old(self).statements@.len() - 2].tokens@)
                } else {
                    None
                },
            )) ==> r is Ok,
            (old(self).statements@.len() > 0 && header_ok(old(self).statements@.last().tokens@) && ends_flat(
                old(self).statements@.last().tokens@,
                if old(self).statements@.len() > 1 {
                    Some(old(self).statements@[old(self).statements@.len() - 2].tokens@)
                } else {
                    None
                },
            )) ==> (r matches Ok(Some(id)) && final(self).statements@ == old(self).statements@.drop_last()
                && final(self).ast.statement_root_node_ids@ == old(self).ast.statement_root_node_ids@.push(id)
                && statement_node_matches(final(self).ast, id, old(self).statements@.last().tokens@)
                && (loop_free_line(old(self).statements@.last().tokens@) ==> without_loops_from(final(self).ast, old(self).ast.node_arena@.len() as int))),
            (old(self).statements@.len() > 0 && statement_parses(old(self).statements@.drop_last(), old(self).statements@.last())) ==> r is Ok,
            r matches Ok(Some(id)) ==> subtree_matches(final(self).ast, id, old(self).statements@.drop_last(), old(self).statements@.last()),
        decreases old(self).statements@.len(), 0nat,
    {
        let statement = match self.statements.pop() {
            Some(s) => s,
            None => {
                return Ok(None);
            },
        };
        let ghost popped = *self;
        proof {
            if statement_parses(old(self).statements@.drop_last(), old(self).statements@.last()) {
                lemma_statement_parses_parts(old(self).statements@.drop_last(), old(self).statements@.last());
            }
            reveal(after_statement);
            assert(line_indent(statement.tokens@) == statement.indent_size);
            if self.statements@.len() > 0 {
                assert(self.statements@.last() == old(self).statements@[old(self).statements@.len() - 2]);
                assert(line_indent(self.statements@.last().tokens@) == self.statements@.last().indent_size) by {
                    assert(self.statements@.last().wf());
                }
            }
        }
        let node_id = match statement.token_after_indent_type() {
            TokenType::Fn => self.parse_function_def(table, statement, scope_id)?,
            TokenType::If => self.parse_if_statement(table, statement, scope_id)?,
            TokenType::While => self.parse_while_loop(table, statement, scope_id)?,
            TokenType::For => self.parse_for_loop(table, statement, scope_id)?,
            _ => {
                let mut stream = statement.suffix_stream(Statement::INDEX_AFTER_INDENT);
                let id = ExpressionParser::parse(&mut stream, &mut self.ast, scope_id)?;
                proof {
                    assert(stream.tokens@ == statement.tokens@);
                    lemma_expression_scopes(popped.ast, self.ast, scope_id, table.scopes@.len() as int);
                    lemma_expression_names(popped.ast, self.ast, scope_id, self.symbol_bound@);
                    assert(crate::syntax::parser::expression::can_start_expression(statement.tokens@[1].token_type));
                    lemma_roots_track_refl(*self);
                }
                id
            },
        };
        proof {
            reveal(after_statement);
            reveal(after_body);
            reveal(after_branches);
            assert(statement == old(self).statements@.last());
            assert(popped.statements@ == old(self).statements@.drop_last());
            assert(self.statements@.len() == after_statement(popped.statements@, statement));
        }
        let ghost before_root = self.ast;
        let ghost before_root_p = *self;
        self.ast.add_statement_root(node_id);
        proof {
            if compound_line(statement.tokens@) {
                lemma_subtree_extend(before_root, self.ast, node_id, popped.statements@, statement);
            } else {
                assert(self.ast.node_arena@[node_id.0 as int] == before_root.node_arena@[node_id.0 as int]);
                reveal(subtree_matches);
                reveal(ids_tree_matches);
            }
            if header_ok(statement.tokens@) && statement_node_matches(before_root, node_id, statement.tokens@) {
                lemma_statement_node_extend(before_root, self.ast, node_id, statement.tokens@);
            }
            crate::ast::arena_ast::lemma_ast_extends_trans(old(self).ast, before_root, self.ast);
            assert(!is_branch_statement(statement));
            lemma_roots_track_pop_own(*old(self), popped, before_root_p);
        }
        Ok(Some(node_id))
    }

    /// Parses every statement, each at the top level in the global scope.
    #[verifier::rlimit(80)]
    #[verifier::spinoff_prover]
    fn parse_global_nodes(&mut self, table: &mut SymbolTable) -> (r: Result<(), CompilerError>)
        requires
            old(self).wf(*old(table)),
            old(table).wf(),
        ensures
            scopes_extend(*old(table), *final(table)),
            parser_step(*old(self), *final(self), *final(table)),
            r is Ok ==> roots_track(*old(self), *final(self)),
            r is Ok ==> final(self).statements@.len() == 0,
            flat_statements(old(self).statements@) ==> r is Ok,
            flat_statements(old(self).statements@) ==> {
                &&& final(self).ast.statement_root_node_ids@.len() == old(self).ast.statement_root_node_ids@.len()
                    + old(self).statements@.len()
                &&& forall|k: int| 0 <= k < old(self).statements@.len() ==> statement_node_matches(
                    final(self).ast,
                    #[trigger] final(self).ast.statement_root_node_ids@[old(self).ast.statement_root_node_ids@.len() + k],
                    old(self).statements@[old(self).statements@.len() - 1 - k].tokens@,
                )
            },
            (flat_statements(old(self).statements@) && forall|k: int| 0 <= k < old(self).statements@.len()
                ==> loop_free_line(#[trigger] old(self).statements@[k].tokens@)) ==> without_loops_from(final(self).ast, old(self).ast.node_arena@.len() as int),
            old(self).statements@.len() == 0 ==> r is Ok && final(self).ast == old(self).ast,
            statements_parse(old(self).statements@) ==> r is Ok,
            r is Ok ==> program_tree(final(self).ast, old(self).statements@),
    {
        let global_scope_id = ScopeId::global();
        proof {
            lemma_roots_track_refl(*self);
        }
        let ghost mut done_tops: Seq<Statement> = Seq::empty();
        let ghost mut done_rests: Seq<Seq<Statement>> = Seq::empty();
        let ghost mut pos: Seq<int> = Seq::empty();
        proof {
            assert(top_statements(old(self).statements@) =~= done_tops + top_statements(self.statements@));
            assert(top_rests(old(self).statements@) =~= done_rests + top_rests(self.statements@));
        }
        loop
            invariant
                table.wf(),
                scopes_extend(*old(table), *table),
                parser_step(*old(self), *self, *table),
                roots_track(*old(self), *self),
                global_scope_id.0 == 0,
                flat_statements(old(self).statements@) ==> flat_statements(self.statements@),
                flat_statements(old(self).statements@) ==> {
                    &&& self.ast.statement_root_node_ids@.len() == old(self).ast.statement_root_node_ids@.len()
                        + old(self).statements@.len() - self.statements@.len()
                    &&& forall|k: int| 0 <= k < old(self).statements@.len() - self.statements@.len() ==> statement_node_matches(
                        self.ast,
                        #[trigger] self.ast.statement_root_node_ids@[old(self).ast.statement_root_node_ids@.len() + k],
                        old(self).statements@[old(self).statements@.len() - 1 - k].tokens@,
                    )
                },
                (flat_statements(old(self).statements@) && forall|k: int| 0 <= k < old(self).statements@.len()
                    ==> loop_free_line(#[trigger] old(self).statements@[k].tokens@)) ==> without_loops_from(self.ast, old(self).ast.node_arena@.len() as int),
                old(self).statements@.len() == 0 ==> self.ast == old(self).ast,
                statements_parse(old(self).statements@) ==> statements_parse(self.statements@),
                top_statements(old(self).statements@) == done_tops + top_statements(self.statements@),
                top_rests(old(self).statements@) == done_rests + top_rests(self.statements@),
                done_rests.len() == done_tops.len(),
                pos.len() == done_tops.len(),
                forall|k: int| 0 <= k < done_tops.len() ==> 0 <= #[trigger] pos[k] < self.ast.statement_root_node_ids@.len()
                    && subtree_matches(self.ast, self.ast.statement_root_node_ids@[pos[k]], done_rests[k], done_tops[k]),
            decreases self.statements@.len(),
        {
            let ghost before = *self;
            proof {
                if statements_parse(old(self).statements@) && self.statements@.len() > 0 {
                    lemma_statements_parse_step(self.statements@);
                }
            }
            let next = self.parse_next_statement_ast_node(table, global_scope_id)?;
            proof {
                if statements_parse(old(self).statements@) && before.statements@.len() > 0 {
                    assert(self.statements@ =~= before.statements@.subrange(0, self.statements@.len() as int));
                }
                crate::ast::arena_ast::lemma_ast_extends_trans(old(self).ast, before.ast, self.ast);
                lemma_roots_track_trans(*old(self), before, *self);
                if flat_statements(old(self).statements@) && before.statements@.len() > 0 {
                    let n = old(self).statements@.len() as int;
                    let m = before.statements@.len() as int;
                    let base = old(self).ast.statement_root_node_ids@.len() as int;
                    assert(before.statements@.last() == old(self).statements@[m - 1]);
                    assert(header_ok(before.statements@[m - 1].tokens@));
                    assert forall|k: int| 0 <= k < n - self.statements@.len() implies statement_node_matches(
                        self.ast,
                        #[trigger] self.ast.statement_root_node_ids@[base + k],
                        old(self).statements@[n - 1 - k].tokens@,
                    ) by {
                        if k < n - m {
                            assert(self.ast.statement_root_node_ids@[base + k] == before.ast.statement_root_node_ids@[base + k]);
                            lemma_statement_node_extend(before.ast, self.ast, before.ast.statement_root_node_ids@[base + k], old(self).statements@[n - 1 - k].tokens@);
                        } else {
                            assert(k == n - m);
                        }
                    }
                    if forall|k: int| 0 <= k < n ==> loop_free_line(#[trigger] old(self).statements@[k].tokens@) {
                        assert(loop_free_line(old(self).statements@[m - 1].tokens@));
                        lemma_without_loops_compose(before.ast, self.ast, old(self).ast.node_arena@.len() as int);
                    }
                }
            }
            proof {
                reveal(top_statements);
                reveal(top_rests);
                if before.statements@.len() > 0 {
                    let ss = before.statements@;
                    let e = self.statements@.len() as int;
                    assert(self.statements@ =~= ss.subrange(0, e));
                    assert(top_statements(ss) == seq![ss.last()] + top_statements(ss.subrange(0, e)));
                    assert(top_rests(ss) == seq![ss.drop_last()] + top_rests(ss.subrange(0, e)));
                    let old_tops = done_tops;
                    let old_rests = done_rests;
                    let old_pos = pos;
                    done_tops = done_tops.push(ss.last());
                    done_rests = done_rests.push(ss.drop_last());
                    pos = pos.push(self.ast.statement_root_node_ids@.len() - 1);
                    assert(old_tops + (seq![ss.last()] + top_statements(self.statements@)) =~= done_tops + top_statements(self.statements@));
                    assert(old_rests + (seq![ss.drop_last()] + top_rests(self.statements@)) =~= done_rests + top_rests(self.statements@));
                    assert forall|k: int| 0 <= k < done_tops.len() implies 0 <= #[trigger] pos[k] < self.ast.statement_root_node_ids@.len()
                        && subtree_matches(self.ast, self.ast.statement_root_node_ids@[pos[k]], done_rests[k], done_tops[k]) by {
                        if k < old_tops.len() {
                            assert(pos[k] == old_pos[k]);
                            assert(self.ast.statement_root_node_ids@[pos[k]] == before.ast.statement_root_node_ids@[pos[k]]);
                            lemma_subtree_extend(before.ast, self.ast, before.ast.statement_root_node_ids@[pos[k]], done_rests[k], done_tops[k]);
                        } else {
                            assert(next is Some);
                            assert(self.ast.statement_root_node_ids@.last() == next->0);
                            assert(pos[k] == self.ast.statement_root_node_ids@.len() - 1);
                        }
                    }
                }
            }
            if next.is_none() {
                proof {
                    reveal(top_statements);
                    reveal(top_rests);
                    assert(done_tops =~= top_statements(old(self).statements@));
                    assert(done_rests =~= top_rests(old(self).statements@));
                    assert(pos.len() == top_statements(old(self).statements@).len());
                }
                return Ok(());
            }
        }
    }

    /// The AST of tokenized lines: the statements of the program in order,
    /// each with its body, new scopes for the bodies added to the symbol
    /// table of `ctx`. Every non-blank line becomes one statement root,
    /// except the `elif` and `else` lines, which join their `if`.
    #[verifier::rlimit(80)]
    #[verifier::spinoff_prover]
    pub fn generate_ast(source_lines: TokenizedLines, ctx: &mut CompilerContext) -> (r: Result<AST, CompilerError>)
        requires
            old(ctx).wf(),
            forall|i: int| 0 <= i < source_lines.0@.len() ==> line_shape_ok(#[trigger] source_lines.0@[i]@),
            lines_symbols_below(source_lines.lines_view(), old(ctx).string_interner@.len()),
        ensures
            final(ctx).wf(),
            final(ctx).string_interner == old(ctx).string_interner,
            final(ctx).type_arena == old(ctx).type_arena,
            scopes_extend(old(ctx).symbol_table, final(ctx).symbol_table),
            r matches Ok(ast) ==> {
                &&& ast.wf()
                &&& ast.scopes_below(final(ctx).symbol_table.scopes@.len() as int)
                &&& ast.names_below(final(ctx).string_interner@.len())
                &&& ast.statement_root_node_ids@.len() == own_lines(non_blank_lines(source_lines.lines_view()))
            },
            flat_lines(non_blank_lines(source_lines.lines_view())) ==> r is Ok,
            flat_lines(non_blank_lines(source_lines.lines_view())) ==> (r matches Ok(ast) && {
                let nb = non_blank_lines(source_lines.lines_view());
                &&& ast.statement_root_node_ids@.len() == nb.len()
                &&& forall|i: int| 0 <= i < nb.len() ==> statement_node_matches(ast, #[trigger] ast.statement_root_node_ids@[i], nb[i])
                &&& (forall|i: int| 0 <= i < nb.len() ==> loop_free_line(#[trigger] nb[i])) ==> without_loops_from(ast, 0)
            }),
            non_blank_lines(source_lines.lines_view()).len() == 0 ==> (r matches Ok(ast) && ast.node_arena@.len() == 0),
            program_parses(source_lines.lines_view()) ==> r is Ok,
            r matches Ok(ast) ==> exists|ss: Seq<Statement>| statements_of_lines(ss, source_lines.lines_view()) && #[trigger] program_tree(ast, ss),
    {
        let ghost lines = source_lines.lines_view();
        let statements = SourceStatements::from_lines(source_lines);
        let ghost list = statements.0@;
        let mut parser = Self::new(statements, Ghost(ctx.string_interner@.len()));
        proof {
            assert(parser.ast.scopes_below(ctx.symbol_table.scopes@.len() as int));
            assert(parser.ast.names_below(parser.symbol_bound@));
        }
        let ghost start = parser;
        proof {
            let nb = non_blank_lines(lines);
            let n = list.len() as int;
            assert(Seq::new(list.len(), |i: int| list[i].tokens@).len() == nb.len());
            if flat_lines(nb) {
                assert forall|i: int| 0 <= i < parser.statements@.len() implies header_ok((#[trigger] parser.statements@[i]).tokens@)
                    && ends_flat(
                    parser.statements@[i].tokens@,
                    if i > 0 {
                        Some(parser.statements@[i - 1].tokens@)
                    } else {
                        None
                    },
                ) by {
                    assert(parser.statements@[i] == list[n - 1 - i]);
                    assert(list[n - 1 - i].tokens@ == nb[n - 1 - i]);
                    assert(header_ok(nb[n - 1 - i]));
                    if i > 0 {
                        assert(parser.statements@[i - 1] == list[n - i]);
                        assert(list[n - i].tokens@ == nb[n - i]);
                    }
                }
            }
        }
        proof {
            let nb = non_blank_lines(lines);
            let n = list.len() as int;
            if program_parses(lines) {
                let w = choose|ss: Seq<Statement>| statements_of_lines(ss, lines) && #[trigger] statements_parse(ss);
                assert forall|i: int| 0 <= i < w.len() implies same_statement(#[trigger] w[i], parser.statements@[i]) by {
                    assert(parser.statements@[i] == list[n - 1 - i]);
                    assert(list[n - 1 - i].tokens@ == nb[n - 1 - i]);
                    assert(parser.statements@[i].wf());
                }
                lemma_same_statements(w, parser.statements@);
            }
        }
        parser.parse_global_nodes(&mut ctx.symbol_table)?;
        proof {
            let nb0 = non_blank_lines(lines);
            let n0 = list.len() as int;
            assert forall|i: int| 0 <= i < start.statements@.len() implies (#[trigger] start.statements@[i]).tokens@ == nb0[nb0.len() - 1 - i]
                && start.statements@[i].indent_size == line_indent(nb0[nb0.len() - 1 - i]) by {
                assert(start.statements@[i] == list[n0 - 1 - i]);
                assert(list[n0 - 1 - i].tokens@ == nb0[n0 - 1 - i]);
                assert(start.statements@[i].wf());
            }
            assert(statements_of_lines(start.statements@, lines));
            assert(program_tree(parser.ast, start.statements@));
            lemma_own_statements_reverse(list);
            assert(start.statements@.subrange(0, start.statements@.len() as int) =~= start.statements@);
            let nb = non_blank_lines(lines);
            let n = list.len() as int;
            if flat_lines(nb) {
                assert forall|i: int| 0 <= i < nb.len() implies statement_node_matches(parser.ast, #[trigger] parser.ast.statement_root_node_ids@[i], nb[i]) by {
                    assert(start.statements@[n - 1 - i] == list[i]);
                    assert(list[i].tokens@ == nb[i]);
                    assert(parser.ast.statement_root_node_ids@[i] == parser.ast.statement_root_node_ids@[start.ast.statement_root_node_ids@.len() + i]);
                }
                if forall|i: int| 0 <= i < nb.len() ==> loop_free_line(#[trigger] nb[i]) {
                    assert forall|k: int| 0 <= k < start.statements@.len() implies loop_free_line(#[trigger] start.statements@[k].tokens@) by {
                        assert(start.statements@[k] == list[n - 1 - k]);
                        assert(list[n - 1 - k].tokens@ == nb[n - 1 - k]);
                    }
                }
            }
        }
        Ok(parser.ast)
    }
}

/// Adding scopes keeps every scope of an AST below the new bound.
pub proof fn lemma_scopes_below_grow(ast: AST, a: int, b: int)
    requires
        ast.scopes_below(a),
        a <= b,
    ensures
        ast.scopes_below(b),
{
    assert forall|i: int| 0 <= i < ast.node_arena@.len() implies (#[trigger] ast.node_arena@[i]).scope_id.0 < b
        && block_scopes_below(ast.node_arena@[i].node_type, b) by {
        match ast.node_arena@[i].node_type {
            ASTNodeType::If(n) => {
                assert(forall|k: int| 0 <= k < n.condition_blocks@.len() ==> (#[trigger] n.condition_blocks@[k]).body.scope_id.0 < a);
            },
            _ => {},
        }
    }
}

/// Nodes added in scope `scope`, which hold no block, keep the scopes of an
/// AST below a bound above `scope`.
pub proof fn lemma_expression_scopes(before: AST, after: AST, scope: ScopeId, bound: int)
    requires
        before.scopes_below(bound - 1) || before.scopes_below(bound),
        ast_extends(before, after),
        crate::syntax::parser::expression::nodes_in_scope(after, before.node_arena@.len() as int, scope),
        scope.0 < bound,
    ensures
        after.scopes_below(bound),
{
    if before.scopes_below(bound - 1) {
        lemma_scopes_below_grow(before, bound - 1, bound);
    }
    assert forall|i: int| 0 <= i < after.node_arena@.len() implies (#[trigger] after.node_arena@[i]).scope_id.0 < bound
        && block_scopes_below(after.node_arena@[i].node_type, bound) by {
        if i < before.node_arena@.len() {
            assert(after.node_arena@[i] == before.node_arena@[i]);
        }
    }
}

/// Nodes added by the expression parser name no type in a signature.
pub proof fn lemma_expression_names(before: AST, after: AST, scope: ScopeId, n: nat)
    requires
        before.names_below(n),
        ast_extends(before, after),
        crate::syntax::parser::expression::nodes_in_scope(after, before.node_arena@.len() as int, scope),
    ensures
        after.names_below(n),
{
    assert forall|i: int| 0 <= i < after.node_arena@.len() implies crate::ast::ast_node::signature_names_below(
        #[trigger] after.node_arena@[i].node_type,
        n,
    ) by {
        if i < before.node_arena@.len() {
            assert(after.node_arena@[i] == before.node_arena@[i]);
        }
    }
}

/// Adding one node whose signature names are below `n` keeps the AST's
/// names below `n`.
pub proof fn lemma_add_node_names(before: AST, after: AST, n: nat)
    requires
        before.names_below(n),
        ast_extends(before, after),
        after.node_arena@.len() == before.node_arena@.len() + 1,
        crate::ast::ast_node::signature_names_below(after.node_arena@.last().node_type, n),
    ensures
        after.names_below(n),
{
    assert forall|i: int| 0 <= i < after.node_arena@.len() implies crate::ast::ast_node::signature_names_below(
        #[trigger] after.node_arena@[i].node_type,
        n,
    ) by {
        if i < before.node_arena@.len() {
            assert(after.node_arena@[i] == before.node_arena@[i]);
        }
    }
}

/// Adding one node whose scopes are below a bound keeps the AST below it.
pub proof fn lemma_add_node_scopes(before: AST, after: AST, bound: int)
    requires
        ast_extends(before, after),
        forall|i: int| 0 <= i < after.node_arena@.len() - 1 ==> (#[trigger] after.node_arena@[i]).scope_id.0 < bound
            && block_scopes_below(after.node_arena@[i].node_type, bound),
        after.node_arena@.len() >= 1,
        after.node_arena@.last().scope_id.0 < bound,
        block_scopes_below(after.node_arena@.last().node_type, bound),
    ensures
        after.scopes_below(bound),
{
}

} // verus!
