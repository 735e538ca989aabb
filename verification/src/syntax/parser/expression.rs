use vstd::prelude::*;
use crate::ast::access_node::{AccessNode, Member};
use crate::ast::arena_ast::{AST, ast_extends};
use crate::ast::ast_node::{ASTNode, ASTNodeId, ASTNodeType, is_expression};
use crate::ast::function_call_node::FunctionCallNode;
use crate::ast::index_node::IndexNode;
use crate::ast::operator_nodes::{BinaryOperatorNode, UnaryOperatorNode, VariableNode};
use crate::compiler_context::scope::ScopeId;
use crate::error::spanned_error::{CompilerError, ErrorKind, SpannableError};
use crate::lexer::token::{Token, TokenType};
use crate::operators::binary_operators::{BinaryOperator, binary_precedence_group};
use crate::operators::precedence::{OperatorPrecedenceGroup, group_binding_power, group_level};
use crate::operators::unary_operators::UnaryOperator;
use crate::syntax::error::SyntaxError;
use crate::syntax::parser::token_stream::TokenStream;
use crate::syntax::parser::type_annotation::{parse_type_annotation, simple_type_at};

use crate::lexer::token::{lemma_scan_token_at, scan, token_at};
use crate::lexer::tokenizer::{token_for_lexeme, tokens_valid};
use crate::operators::binary_operators::binary_operator_text;
use crate::operators::unary_operators::unary_operator_text;
use crate::lexer::token::lemma_scan_one_token;

verus! {

/// The precedence group of a token that continues an expression to its
/// left: binary operators, postfix operators, calls, indexing and member
/// access.
pub open spec fn lhs_group(t: TokenType) -> Option<OperatorPrecedenceGroup> {
    match t {
        TokenType::Comma => Some(OperatorPrecedenceGroup::Comma),
        TokenType::Equals | TokenType::PlusEquals | TokenType::MinusEquals | TokenType::StarEquals
        | TokenType::SlashEquals | TokenType::PercentEquals | TokenType::DoubleLeftArrowEquals
        | TokenType::DoubleRightArrowEquals | TokenType::AmpersandEquals | TokenType::CaretEquals
        | TokenType::PipeEquals => Some(OperatorPrecedenceGroup::Assign),
        TokenType::DoublePipe => Some(OperatorPrecedenceGroup::LogicalOr),
        TokenType::DoubleAmpersand => Some(OperatorPrecedenceGroup::LogicalAnd),
        TokenType::Pipe => Some(OperatorPrecedenceGroup::BitOr),
        TokenType::Caret => Some(OperatorPrecedenceGroup::BitXor),
        TokenType::Ampersand => Some(OperatorPrecedenceGroup::BitAnd),
        TokenType::DoubleEquals | TokenType::ExclamationEquals => Some(OperatorPrecedenceGroup::Equality),
        TokenType::Less | TokenType::LessEquals | TokenType::Greater | TokenType::GreaterEquals => Some(
            OperatorPrecedenceGroup::Relational,
        ),
        TokenType::DoubleLeftArrow | TokenType::DoubleRightArrow => Some(OperatorPrecedenceGroup::BitShift),
        TokenType::Plus | TokenType::Minus => Some(OperatorPrecedenceGroup::Add),
        TokenType::Star | TokenType::Slash | TokenType::Percent => Some(OperatorPrecedenceGroup::Mul),
        TokenType::PlusPlus | TokenType::MinusMinus | TokenType::OpenParen | TokenType::OpenBracket
        | TokenType::Dot => Some(OperatorPrecedenceGroup::Postfix),
        _ => None,
    }
}

/// The binary operator a token denotes, if any.
pub open spec fn spec_binary_operator_type(t: TokenType) -> Option<BinaryOperator> {
    match t {
        TokenType::Equals => Some(BinaryOperator::Assign),
        TokenType::PlusEquals => Some(BinaryOperator::AddAssign),
        TokenType::MinusEquals => Some(BinaryOperator::SubAssign),
        TokenType::StarEquals => Some(BinaryOperator::MulAssign),
        TokenType::SlashEquals => Some(BinaryOperator::DivAssign),
        TokenType::PercentEquals => Some(BinaryOperator::ModAssign),
        TokenType::DoubleLeftArrowEquals => Some(BinaryOperator::LeftShiftAssign),
        TokenType::DoubleRightArrowEquals => Some(BinaryOperator::RightShiftAssign),
        TokenType::AmpersandEquals => Some(BinaryOperator::AndAssign),
        TokenType::CaretEquals => Some(BinaryOperator::XorAssign),
        TokenType::PipeEquals => Some(BinaryOperator::OrAssign),
        TokenType::Plus => Some(BinaryOperator::Add),
        TokenType::Minus => Some(BinaryOperator::Sub),
        TokenType::Star => Some(BinaryOperator::Mul),
        TokenType::Slash => Some(BinaryOperator::Div),
        TokenType::Percent => Some(BinaryOperator::Mod),
        TokenType::Ampersand => Some(BinaryOperator::BitAnd),
        TokenType::Pipe => Some(BinaryOperator::BitOr),
        TokenType::Caret => Some(BinaryOperator::BitXor),
        TokenType::DoubleLeftArrow => Some(BinaryOperator::LeftShift),
        TokenType::DoubleRightArrow => Some(BinaryOperator::RightShift),
        TokenType::DoubleEquals => Some(BinaryOperator::Equal),
        TokenType::ExclamationEquals => Some(BinaryOperator::NotEquals),
        TokenType::Less => Some(BinaryOperator::LessThan),
        TokenType::LessEquals => Some(BinaryOperator::LessOrEqual),
        TokenType::Greater => Some(BinaryOperator::GreaterThan),
        TokenType::GreaterEquals => Some(BinaryOperator::GreaterOrEqual),
        TokenType::DoubleAmpersand => Some(BinaryOperator::LogicalAnd),
        TokenType::DoublePipe => Some(BinaryOperator::LogicalOr),
        TokenType::Comma => Some(BinaryOperator::CommaOperator),
        _ => None,
    }
}

/// The prefix operator a token denotes, if any.
pub open spec fn spec_prefix_unary_operator_type(t: TokenType) -> Option<UnaryOperator> {
    match t {
        TokenType::Minus => Some(UnaryOperator::Neg),
        TokenType::Exclamation => Some(UnaryOperator::Not),
        TokenType::Tilde => Some(UnaryOperator::BitNot),
        TokenType::PlusPlus => Some(UnaryOperator::PreInc),
        TokenType::MinusMinus => Some(UnaryOperator::PreDec),
        _ => None,
    }
}

/// The tokens an expression can start with: a prefix operator, a name, an
/// opening parenthesis or a literal.
pub open spec fn can_start_expression(t: TokenType) -> bool {
    spec_prefix_unary_operator_type(t) is Some || t is Identifier || t is OpenParen || t is IntLiteral || t is StringLiteral
}

/// The postfix operator a token denotes, if any.
pub open spec fn spec_postfix_unary_operator_type(t: TokenType) -> Option<UnaryOperator> {
    match t {
        TokenType::PlusPlus => Some(UnaryOperator::PostInc),
        TokenType::MinusMinus => Some(UnaryOperator::PostDec),
        _ => None,
    }
}

/// Tokens that end an expression: closing brackets and a colon.
pub open spec fn spec_is_terminal(t: TokenType) -> bool {
    t is CloseParen || t is CloseBracket || t is Colon
}

/// Left and right binding power of a token that continues an expression.
pub fn operators_with_lhs_binding_power(op: &Token) -> (r: Option<(u8, u8)>)
    ensures
        r == (match lhs_group(op.token_type) {
            Some(g) => Some(group_binding_power(g)),
            None => None,
        }),
{
    let group = match op.token_type {
        TokenType::Comma => OperatorPrecedenceGroup::Comma,
        TokenType::Equals | TokenType::PlusEquals | TokenType::MinusEquals | TokenType::StarEquals
        | TokenType::SlashEquals | TokenType::PercentEquals | TokenType::DoubleLeftArrowEquals
        | TokenType::DoubleRightArrowEquals | TokenType::AmpersandEquals | TokenType::CaretEquals
        | TokenType::PipeEquals => OperatorPrecedenceGroup::Assign,
        TokenType::DoublePipe => OperatorPrecedenceGroup::LogicalOr,
        TokenType::DoubleAmpersand => OperatorPrecedenceGroup::LogicalAnd,
        TokenType::Pipe => OperatorPrecedenceGroup::BitOr,
        TokenType::Caret => OperatorPrecedenceGroup::BitXor,
        TokenType::Ampersand => OperatorPrecedenceGroup::BitAnd,
        TokenType::DoubleEquals | TokenType::ExclamationEquals => OperatorPrecedenceGroup::Equality,
        TokenType::Less | TokenType::LessEquals | TokenType::Greater
        | TokenType::GreaterEquals => OperatorPrecedenceGroup::Relational,
        TokenType::DoubleLeftArrow | TokenType::DoubleRightArrow => OperatorPrecedenceGroup::BitShift,
        TokenType::Plus | TokenType::Minus => OperatorPrecedenceGroup::Add,
        TokenType::Star | TokenType::Slash | TokenType::Percent => OperatorPrecedenceGroup::Mul,
        TokenType::PlusPlus | TokenType::MinusMinus | TokenType::OpenParen | TokenType::OpenBracket
        | TokenType::Dot => OperatorPrecedenceGroup::Postfix,
        _ => return None,
    };
    Some(group.binding_power())
}

/// The binary operator a token denotes, if any.
pub fn binary_operator_type(op: &Token) -> (r: Option<BinaryOperator>)
    ensures
        r == spec_binary_operator_type(op.token_type),
{
    Some(
        match op.token_type {
            TokenType::Equals => BinaryOperator::Assign,
            TokenType::PlusEquals => BinaryOperator::AddAssign,
            TokenType::MinusEquals => BinaryOperator::SubAssign,
            TokenType::StarEquals => BinaryOperator::MulAssign,
            TokenType::SlashEquals => BinaryOperator::DivAssign,
            TokenType::PercentEquals => BinaryOperator::ModAssign,
            TokenType::DoubleLeftArrowEquals => BinaryOperator::LeftShiftAssign,
            TokenType::DoubleRightArrowEquals => BinaryOperator::RightShiftAssign,
            TokenType::AmpersandEquals => BinaryOperator::AndAssign,
            TokenType::CaretEquals => BinaryOperator::XorAssign,
            TokenType::PipeEquals => BinaryOperator::OrAssign,
            TokenType::Plus => BinaryOperator::Add,
            TokenType::Minus => BinaryOperator::Sub,
            TokenType::Star => BinaryOperator::Mul,
            TokenType::Slash => BinaryOperator::Div,
            TokenType::Percent => BinaryOperator::Mod,
            TokenType::Ampersand => BinaryOperator::BitAnd,
            TokenType::Pipe => BinaryOperator::BitOr,
            TokenType::Caret => BinaryOperator::BitXor,
            TokenType::DoubleLeftArrow => BinaryOperator::LeftShift,
            TokenType::DoubleRightArrow => BinaryOperator::RightShift,
            TokenType::DoubleEquals => BinaryOperator::Equal,
            TokenType::ExclamationEquals => BinaryOperator::NotEquals,
            TokenType::Less => BinaryOperator::LessThan,
            TokenType::LessEquals => BinaryOperator::LessOrEqual,
            TokenType::Greater => BinaryOperator::GreaterThan,
            TokenType::GreaterEquals => BinaryOperator::GreaterOrEqual,
            TokenType::DoubleAmpersand => BinaryOperator::LogicalAnd,
            TokenType::DoublePipe => BinaryOperator::LogicalOr,
            TokenType::Comma => BinaryOperator::CommaOperator,
            _ => return None,
        },
    )
}

/// The prefix operator a token denotes, if any.
pub fn prefix_unary_operator_type(op: &Token) -> (r: Option<UnaryOperator>)
    ensures
        r == spec_prefix_unary_operator_type(op.token_type),
{
    Some(
        match op.token_type {
            TokenType::Minus => UnaryOperator::Neg,
            TokenType::Exclamation => UnaryOperator::Not,
            TokenType::Tilde => UnaryOperator::BitNot,
            TokenType::PlusPlus => UnaryOperator::PreInc,
            TokenType::MinusMinus => UnaryOperator::PreDec,
            _ => return None,
        },
    )
}

/// The postfix operator a token denotes, if any.
pub fn postfix_unary_operator_type(op: &Token) -> (r: Option<UnaryOperator>)
    ensures
        r == spec_postfix_unary_operator_type(op.token_type),
{
    Some(
        match op.token_type {
            TokenType::PlusPlus => UnaryOperator::PostInc,
            TokenType::MinusMinus => UnaryOperator::PostDec,
            _ => return None,
        },
    )
}

/// Whether a token ends an expression.
pub fn is_terminal(token: &Token) -> (r: bool)
    ensures
        r == spec_is_terminal(token.token_type),
{
    matches!(token.token_type, TokenType::CloseParen | TokenType::CloseBracket | TokenType::Colon)
}

/// The closing token of a group opening.
fn close_token(open_token: &Token) -> (r: TokenType)
    requires
        open_token.token_type is OpenParen || open_token.token_type is OpenBracket,
    ensures
        open_token.token_type is OpenParen ==> r is CloseParen,
        open_token.token_type is OpenBracket ==> r is CloseBracket,
{
    match open_token.token_type {
        TokenType::OpenParen => TokenType::CloseParen,
        _ => TokenType::CloseBracket,
    }
}

/// A token with a left binding power is a binary operator, a postfix
/// operator, or an opening of a call, an index or a member access.
pub proof fn lemma_lhs_tokens_are_handled(t: TokenType)
    requires
        lhs_group(t) is Some,
    ensures
        spec_binary_operator_type(t) is Some || spec_postfix_unary_operator_type(t) is Some || t is OpenBracket
            || t is OpenParen || t is Dot,
        spec_binary_operator_type(t) matches Some(op) ==> lhs_group(t) == Some(
            crate::operators::binary_operators::binary_precedence_group(op),
        ),
{
}

/// Every node from `from` on is an expression of scope `scope`.
pub open spec fn nodes_in_scope(ast: AST, from: int, scope: ScopeId) -> bool {
    forall|i: int| from <= i < ast.node_arena@.len() ==> (#[trigger] ast.node_arena@[i]).scope_id == scope
        && is_expression(ast.node_arena@[i].node_type)
}

/// The precedence level of the binary operation at node `id`, if the node
/// is one.
pub open spec fn binary_level(ast: AST, id: ASTNodeId) -> Option<int> {
    if 0 <= id.0 < ast.node_arena@.len() {
        match ast.node_arena@[id.0 as int].node_type {
            ASTNodeType::BinaryOperator(n) => Some(group_level(binary_precedence_group(n.op_type)) as int),
            _ => None,
        }
    } else {
        None
    }
}

/// The right binding power of the binary operation at node `id`, if the
/// node is one.
pub open spec fn binary_right_power(ast: AST, id: ASTNodeId) -> Option<int> {
    if 0 <= id.0 < ast.node_arena@.len() {
        match ast.node_arena@[id.0 as int].node_type {
            ASTNodeType::BinaryOperator(n) => Some(group_binding_power(binary_precedence_group(n.op_type)).1 as int),
            _ => None,
        }
    } else {
        None
    }
}

/// A node respects precedence: a binary operation's left operand is not a
/// looser binary operation, and its right operand binds at least as tightly
/// as its right binding power (more tightly than itself unless it is an
/// assignment, which groups to the right); a unary operation does not apply
/// to a binary one.
pub open spec fn node_respects_precedence(ast: AST, t: ASTNodeType) -> bool {
    match t {
        ASTNodeType::BinaryOperator(n) => {
            let g = binary_precedence_group(n.op_type);
            &&& binary_level(ast, n.left) matches Some(l) ==> l >= group_level(g)
            &&& binary_level(ast, n.right) matches Some(r) ==> r >= group_binding_power(g).1
        },
        ASTNodeType::UnaryOperator(n) => binary_level(ast, n.operand_id) is None,
        _ => true,
    }
}

/// Every node from `from` on respects precedence.
pub open spec fn precedence_respected(ast: AST, from: int) -> bool {
    forall|i: int| from <= i < ast.node_arena@.len() ==> node_respects_precedence(ast, #[trigger] ast.node_arena@[i].node_type)
}

/// No token from `from` to `to` opens a parenthesis or a bracket.
pub open spec fn ungrouped(tokens: Seq<Token>, from: int, to: int) -> bool {
    forall|k: int| from <= k < to ==> !(#[trigger] tokens[k].token_type is OpenParen) && !(tokens[k].token_type is OpenBracket)
}

/// The token at the cursor, if any, does not continue an expression whose
/// operators must bind at least as tightly as `power`.
pub open spec fn stops_before(peek: Option<Token>, power: int) -> bool {
    peek matches Some(t) ==> spec_is_terminal(t.token_type) || (lhs_group(t.token_type) matches Some(g) && group_level(g) < power)
}

/// Nodes that respect precedence keep doing so as the AST grows; with the
/// new nodes respecting it too, all do.
pub proof fn lemma_precedence_compose(a: AST, b: AST, from: int)
    requires
        0 <= from,
        a.wf(),
        ast_extends(a, b),
        precedence_respected(a, from),
        precedence_respected(b, a.node_arena@.len() as int),
    ensures
        precedence_respected(b, from),
{
    assert forall|i: int| from <= i < b.node_arena@.len() implies node_respects_precedence(b, #[trigger] b.node_arena@[i].node_type) by {
        if i < a.node_arena@.len() {
            assert(b.node_arena@[i] == a.node_arena@[i]);
            assert(crate::ast::ast_node::children_below(a.node_arena@[i].node_type, i));
            match a.node_arena@[i].node_type {
                ASTNodeType::BinaryOperator(n) => {
                    assert(b.node_arena@[n.left.0 as int] == a.node_arena@[n.left.0 as int]);
                    assert(b.node_arena@[n.right.0 as int] == a.node_arena@[n.right.0 as int]);
                },
                ASTNodeType::UnaryOperator(n) => {
                    assert(b.node_arena@[n.operand_id.0 as int] == a.node_arena@[n.operand_id.0 as int]);
                },
                _ => {},
            }
        }
    }
}

/// Where the operand that starts at token `p` ends: prefix operators
/// applied to a literal or to a variable without a type annotation.
pub open spec fn operand_end(tokens: Seq<Token>, p: int) -> Option<int>
    decreases tokens.len() - p,
{
    if 0 <= p < tokens.len() {
        let t = tokens[p].token_type;
        if spec_prefix_unary_operator_type(t) is Some {
            operand_end(tokens, p + 1)
        } else if t is Identifier {
            if p + 1 < tokens.len() && tokens[p + 1].token_type is Colon {
                None
            } else {
                Some(p + 1)
            }
        } else if t is IntLiteral || t is StringLiteral {
            Some(p + 1)
        } else {
            None
        }
    } else {
        None
    }
}

/// Token `e`, or the end of the tokens, ends an expression whose operators
/// bind at least as tightly as `power`.
pub open spec fn ends_at(tokens: Seq<Token>, e: int, power: int) -> bool {
    e >= tokens.len() || spec_is_terminal(tokens[e].token_type) || (lhs_group(tokens[e].token_type) matches Some(g)
        && group_level(g) < power)
}

/// An operand starts at token `p`, and the operand of each of its prefix
/// operators ends there too.
pub open spec fn operand_ok(tokens: Seq<Token>, p: int) -> bool {
    &&& operand_end(tokens, p) is Some
    &&& spec_prefix_unary_operator_type(tokens[p].token_type) is Some ==> ends_at(tokens, operand_end(tokens, p)->0, 12)
}

/// The expression at token `p` whose operators bind at least as tightly as
/// `power` is a single operand.
pub open spec fn operand_parses(tokens: Seq<Token>, p: int, power: int) -> bool {
    operand_ok(tokens, p) && ends_at(tokens, operand_end(tokens, p)->0, power)
}

/// The operands of the chain of comma operators rooted at `id`, from the
/// left; any other expression is its own single operand.
pub open spec fn comma_operands(ast: AST, id: ASTNodeId) -> Seq<ASTNodeId>
    decreases id.0,
{
    if 0 <= id.0 < ast.node_arena@.len() {
        match ast.node_arena@[id.0 as int].node_type {
            ASTNodeType::BinaryOperator(n) => if n.op_type is CommaOperator && n.left.0 < id.0 {
                comma_operands(ast, n.left).push(n.right)
            } else {
                seq![id]
            },
            _ => seq![id],
        }
    } else {
        seq![id]
    }
}

/// No token from `from` to `to` opens or closes a group, accesses a
/// member or annotates a type: the expression there is made of literals,
/// names and operators alone.
pub open spec fn plain(tokens: Seq<Token>, from: int, to: int) -> bool {
    forall|k: int| from <= k < to ==> !(#[trigger] tokens[k].token_type is OpenParen) && !(tokens[k].token_type is OpenBracket)
        && !(tokens[k].token_type is Dot) && !spec_is_terminal(tokens[k].token_type)
}

/// The first token from `p` on that ends an expression (a closing bracket
/// or a colon), or the end of the tokens.
pub open spec fn expression_end(tokens: Seq<Token>, p: int) -> int
    decreases tokens.len() - p,
{
    if p >= tokens.len() || spec_is_terminal(tokens[p].token_type) {
        p
    } else {
        expression_end(tokens, p + 1)
    }
}

/// A plain stretch of tokens that stops before a closing token or at the
/// end runs to the end of the expression.
pub proof fn lemma_plain_end(tokens: Seq<Token>, p: int, q: int)
    requires
        0 <= p <= q <= tokens.len(),
        plain(tokens, p, q),
        q == tokens.len() || spec_is_terminal(tokens[q].token_type),
    ensures
        expression_end(tokens, p) == q,
    decreases q - p,
{
    if p < q {
        assert(!spec_is_terminal(tokens[p].token_type));
        lemma_plain_end(tokens, p + 1, q);
    }
}

/// The token that starts at `p` of the line `s`, when it is a binary
/// operator, is written as that operator's text.
proof fn lemma_operator_lexeme_text(s: Seq<char>, p: int)
    requires
        0 <= p < s.len(),
        token_at(s, p) matches Some((t, n)) && spec_binary_operator_type(t) is Some && p + n <= s.len(),
    ensures
        token_at(s, p) matches Some((t, n)) ==> s.subrange(p, p + n) == binary_operator_text(spec_binary_operator_type(t)->0),
{
    reveal_strlit("=");
    reveal_strlit("+=");
    reveal_strlit("-=");
    reveal_strlit("*=");
    reveal_strlit("/=");
    reveal_strlit("%=");
    reveal_strlit("<<=");
    reveal_strlit(">>=");
    reveal_strlit("&=");
    reveal_strlit("^=");
    reveal_strlit("|=");
    reveal_strlit("+");
    reveal_strlit("-");
    reveal_strlit("*");
    reveal_strlit("/");
    reveal_strlit("%");
    reveal_strlit("&");
    reveal_strlit("|");
    reveal_strlit("^");
    reveal_strlit("<<");
    reveal_strlit(">>");
    reveal_strlit("==");
    reveal_strlit("!=");
    reveal_strlit("<");
    reveal_strlit("<=");
    reveal_strlit(">");
    reveal_strlit(">=");
    reveal_strlit("&&");
    reveal_strlit("||");
    reveal_strlit(",");
    match token_at(s, p) {
        Some((t, n)) => {
            assert(s.subrange(p, p + n) =~= binary_operator_text(spec_binary_operator_type(t)->0));
        },
        None => {},
    }
}

/// An operator is written, in the source, as its own text: the symbol of a
/// token of a tokenized line that denotes a binary operator names that
/// operator's text (the text `BinaryOperator::as_str` gives).
pub proof fn lemma_operator_token_text(tokens: Seq<Token>, line_index: usize, s: Seq<char>, interned: Seq<Seq<char>>, j: int)
    requires
        tokens_valid(tokens, line_index, s, interned),
        1 <= j < tokens.len(),
        spec_binary_operator_type(tokens[j].token_type) is Some,
    ensures
        interned[tokens[j].symbol as int] == binary_operator_text(spec_binary_operator_type(tokens[j].token_type)->0),
{
    lemma_scan_token_at(s, 0);
    let ls = scan(s, 0)->Ok_0;
    let l = ls[j - 1];
    assert(token_for_lexeme(tokens[(j - 1) + 1], l, line_index, s, interned));
    lemma_operator_lexeme_text(s, l.1);
}

/// Every binary operator is written as one token that denotes it: its text
/// scans as a single token, and the parser reads that token as the same
/// operator.
pub proof fn lemma_binary_operator_text_lexes(op: BinaryOperator)
    ensures
        scan(binary_operator_text(op), 0) matches Ok(ts) && ts.len() == 1 && ts[0].1 == 0 && ts[0].2
            == binary_operator_text(op).len() && spec_binary_operator_type(ts[0].0) == Some(op),
{
    match op {
        BinaryOperator::Assign => {
            reveal_strlit("=");
            lemma_scan_one_token(binary_operator_text(op));
        },
        BinaryOperator::AddAssign => {
            reveal_strlit("+=");
            lemma_scan_one_token(binary_operator_text(op));
        },
        BinaryOperator::SubAssign => {
            reveal_strlit("-=");
            lemma_scan_one_token(binary_operator_text(op));
        },
        BinaryOperator::MulAssign => {
            reveal_strlit("*=");
            lemma_scan_one_token(binary_operator_text(op));
        },
        BinaryOperator::DivAssign => {
            reveal_strlit("/=");
            lemma_scan_one_token(binary_operator_text(op));
        },
        BinaryOperator::ModAssign => {
            reveal_strlit("%=");
            lemma_scan_one_token(binary_operator_text(op));
        },
        BinaryOperator::LeftShiftAssign => {
            reveal_strlit("<<=");
            lemma_scan_one_token(binary_operator_text(op));
        },
        BinaryOperator::RightShiftAssign => {
            reveal_strlit(">>=");
            lemma_scan_one_token(binary_operator_text(op));
        },
        BinaryOperator::AndAssign => {
            reveal_strlit("&=");
            lemma_scan_one_token(binary_operator_text(op));
        },
        BinaryOperator::XorAssign => {
            reveal_strlit("^=");
            lemma_scan_one_token(binary_operator_text(op));
        },
        BinaryOperator::OrAssign => {
            reveal_strlit("|=");
            lemma_scan_one_token(binary_operator_text(op));
        },
        BinaryOperator::Add => {
            reveal_strlit("+");
            lemma_scan_one_token(binary_operator_text(op));
        },
        BinaryOperator::Sub => {
            reveal_strlit("-");
            lemma_scan_one_token(binary_operator_text(op));
        },
        BinaryOperator::Mul => {
            reveal_strlit("*");
            lemma_scan_one_token(binary_operator_text(op));
        },
        BinaryOperator::Div => {
            reveal_strlit("/");
            lemma_scan_one_token(binary_operator_text(op));
        },
        BinaryOperator::Mod => {
            reveal_strlit("%");
            lemma_scan_one_token(binary_operator_text(op));
        },
        BinaryOperator::BitAnd => {
            reveal_strlit("&");
            lemma_scan_one_token(binary_operator_text(op));
        },
        BinaryOperator::BitOr => {
            reveal_strlit("|");
            lemma_scan_one_token(binary_operator_text(op));
        },
        BinaryOperator::BitXor => {
            reveal_strlit("^");
            lemma_scan_one_token(binary_operator_text(op));
        },
        BinaryOperator::LeftShift => {
            reveal_strlit("<<");
            lemma_scan_one_token(binary_operator_text(op));
        },
        BinaryOperator::RightShift => {
            reveal_strlit(">>");
            lemma_scan_one_token(binary_operator_text(op));
        },
        BinaryOperator::Equal => {
            reveal_strlit("==");
            lemma_scan_one_token(binary_operator_text(op));
        },
        BinaryOperator::NotEquals => {
            reveal_strlit("!=");
            lemma_scan_one_token(binary_operator_text(op));
        },
        BinaryOperator::LessThan => {
            reveal_strlit("<");
            lemma_scan_one_token(binary_operator_text(op));
        },
        BinaryOperator::LessOrEqual => {
            reveal_strlit("<=");
            lemma_scan_one_token(binary_operator_text(op));
        },
        BinaryOperator::GreaterThan => {
            reveal_strlit(">");
            lemma_scan_one_token(binary_operator_text(op));
        },
        BinaryOperator::GreaterOrEqual => {
            reveal_strlit(">=");
            lemma_scan_one_token(binary_operator_text(op));
        },
        BinaryOperator::LogicalAnd => {
            reveal_strlit("&&");
            lemma_scan_one_token(binary_operator_text(op));
        },
        BinaryOperator::LogicalOr => {
            reveal_strlit("||");
            lemma_scan_one_token(binary_operator_text(op));
        },
        BinaryOperator::CommaOperator => {
            reveal_strlit(",");
            lemma_scan_one_token(binary_operator_text(op));
        },
    }
}

/// The parser binds an operator's token with that operator's precedence
/// group, and the groups rank the operators as usual: multiplicative above
/// additive, above shifts, above ordering comparisons, above equality,
/// above `&`, `^` and `|` in that order, above `&&`, above `||`, above the
/// assignments, above the comma.
pub proof fn lemma_operator_binding(op: BinaryOperator)
    ensures
        scan(binary_operator_text(op), 0) matches Ok(ts) && ts.len() == 1 && lhs_group(ts[0].0) == Some(
            binary_precedence_group(op),
        ),
        (op is Mul || op is Div || op is Mod) ==> binary_precedence_group(op) is Mul,
        (op is Add || op is Sub) ==> binary_precedence_group(op) is Add,
        (op is LeftShift || op is RightShift) ==> binary_precedence_group(op) is BitShift,
        (op is LessThan || op is LessOrEqual || op is GreaterThan || op is GreaterOrEqual) ==> binary_precedence_group(op) is Relational,
        (op is Equal || op is NotEquals) ==> binary_precedence_group(op) is Equality,
        op is BitAnd ==> binary_precedence_group(op) is BitAnd,
        op is BitXor ==> binary_precedence_group(op) is BitXor,
        op is BitOr ==> binary_precedence_group(op) is BitOr,
        op is LogicalAnd ==> binary_precedence_group(op) is LogicalAnd,
        op is LogicalOr ==> binary_precedence_group(op) is LogicalOr,
        (op is Assign || op is AddAssign || op is SubAssign || op is MulAssign || op is DivAssign || op is ModAssign
            || op is LeftShiftAssign || op is RightShiftAssign || op is AndAssign || op is XorAssign || op is OrAssign)
            ==> binary_precedence_group(op) is Assign,
        op is CommaOperator ==> binary_precedence_group(op) is Comma,
{
    lemma_binary_operator_text_lexes(op);
}

/// Every unary operator is written as one token that denotes it: its text
/// scans as a single token, which the parser reads as that operator in
/// prefix position for a prefix operator and in postfix position, binding
/// most tightly, for a postfix one.
pub proof fn lemma_unary_operator_text_lexes(op: UnaryOperator)
    ensures
        scan(unary_operator_text(op), 0) matches Ok(ts) && ts.len() == 1 && ts[0].1 == 0 && ts[0].2
            == unary_operator_text(op).len() && ({
            let t = ts[0].0;
            if op is PostInc || op is PostDec {
                spec_postfix_unary_operator_type(t) == Some(op) && lhs_group(t) == Some(OperatorPrecedenceGroup::Postfix)
            } else {
                spec_prefix_unary_operator_type(t) == Some(op)
            }
        }),
{
    match op {
        UnaryOperator::Neg => {
            reveal_strlit("-");
            lemma_scan_one_token(unary_operator_text(op));
        },
        UnaryOperator::Not => {
            reveal_strlit("!");
            lemma_scan_one_token(unary_operator_text(op));
        },
        UnaryOperator::BitNot => {
            reveal_strlit("~");
            lemma_scan_one_token(unary_operator_text(op));
        },
        UnaryOperator::PreInc => {
            reveal_strlit("++");
            lemma_scan_one_token(unary_operator_text(op));
        },
        UnaryOperator::PreDec => {
            reveal_strlit("--");
            lemma_scan_one_token(unary_operator_text(op));
        },
        UnaryOperator::PostInc => {
            reveal_strlit("++");
            lemma_scan_one_token(unary_operator_text(op));
        },
        UnaryOperator::PostDec => {
            reveal_strlit("--");
            lemma_scan_one_token(unary_operator_text(op));
        },
    }
}

/// Every node from `from` on is a literal, a name, or a unary or binary
/// operation.
pub open spec fn basic_from(ast: AST, from: int) -> bool {
    forall|i: int| from <= i < ast.node_arena@.len() ==> {
        let t = #[trigger] ast.node_arena@[i].node_type;
        t is IntLiteral || t is StringLiteral || t is Variable || t is UnaryOperator || t is BinaryOperator
    }
}

/// Nodes of those kinds, then more of them: all of them are.
pub proof fn lemma_basic_compose(a: AST, b: AST, from: int)
    requires
        0 <= from,
        ast_extends(a, b),
        basic_from(a, from),
        basic_from(b, a.node_arena@.len() as int),
    ensures
        basic_from(b, from),
{
    assert forall|i: int| from <= i < b.node_arena@.len() implies {
        let t = #[trigger] b.node_arena@[i].node_type;
        t is IntLiteral || t is StringLiteral || t is Variable || t is UnaryOperator || t is BinaryOperator
    } by {
        if i < a.node_arena@.len() {
            assert(b.node_arena@[i] == a.node_arena@[i]);
        }
    }
}

/// A simple expression starts at token `p`: operands (prefix operators on a
/// literal or a name without a type annotation) joined by binary
/// operators, up to the end of the tokens or a closing bracket or a colon.
pub open spec fn simple_expression_at(tokens: Seq<Token>, p: int) -> bool
    decreases tokens.len() - p,
{
    if 0 <= p && operand_ok(tokens, p) {
        let e = operand_end(tokens, p)->0;
        e > p && (e >= tokens.len() || spec_is_terminal(tokens[e].token_type) || (spec_binary_operator_type(
            tokens[e].token_type,
        ) is Some && simple_expression_at(tokens, e + 1)))
    } else {
        false
    }
}

/// Where, in operands joined by binary operators from token `p` on, a token
/// that can neither continue nor end an expression first follows an
/// operand, if one does before the expression ends.
pub open spec fn invalid_after_operands(tokens: Seq<Token>, p: int) -> Option<int>
    decreases tokens.len() - p,
{
    if 0 <= p && operand_ok(tokens, p) {
        let e = operand_end(tokens, p)->0;
        if p < e < tokens.len() && !spec_is_terminal(tokens[e].token_type) {
            if spec_binary_operator_type(tokens[e].token_type) is Some {
                invalid_after_operands(tokens, e + 1)
            } else if lhs_group(tokens[e].token_type) is None {
                Some(e)
            } else {
                None
            }
        } else {
            None
        }
    } else {
        None
    }
}

/// From token `x`, which follows an operand, the expression goes on to the
/// token `q` that can neither continue nor end it: `x` is that token, or a
/// binary operator followed by operands that lead to it.
pub open spec fn leads_to_invalid(tokens: Seq<Token>, x: int, q: int) -> bool {
    ||| (x == q && 0 <= q < tokens.len() && !spec_is_terminal(tokens[q].token_type) && lhs_group(tokens[q].token_type) is None)
    ||| (0 <= x < tokens.len() && spec_binary_operator_type(tokens[x].token_type) is Some && invalid_after_operands(tokens, x + 1)
        == Some(q))
}

/// What may follow an operand of a simple expression from token `q` on:
/// nothing, a closing token, or a binary operator and a simple expression.
pub open spec fn simple_rest(tokens: Seq<Token>, q: int) -> bool {
    q >= tokens.len() || spec_is_terminal(tokens[q].token_type) || (spec_binary_operator_type(tokens[q].token_type) is Some
        && simple_expression_at(tokens, q + 1))
}

/// The tokens of an operand are plain.
pub proof fn lemma_operand_plain(tokens: Seq<Token>, p: int)
    requires
        0 <= p,
        operand_end(tokens, p) is Some,
    ensures
        operand_end(tokens, p)->0 > p,
        plain(tokens, p, operand_end(tokens, p)->0),
    decreases tokens.len() - p,
{
    if spec_prefix_unary_operator_type(tokens[p].token_type) is Some {
        lemma_operand_plain(tokens, p + 1);
    }
}

/// No token from `from` to `to` accesses a member or annotates a type.
pub open spec fn unannotated(tokens: Seq<Token>, from: int, to: int) -> bool {
    forall|k: int| from <= k < to ==> !(#[trigger] tokens[k].token_type is Dot) && !(tokens[k].token_type is Colon)
}

/// Token `k` of `toks` is the opening parenthesis of a call at `span`.
pub open spec fn call_split(toks: Seq<Token>, k: int, span: crate::source::source_span::SourceSpan) -> bool {
    toks[k].token_type is OpenParen && toks[k].span == span
}

/// Token `k` of `toks` is the opening bracket of an index at `span`.
pub open spec fn index_split(toks: Seq<Token>, k: int, span: crate::source::source_span::SourceSpan) -> bool {
    toks[k].token_type is OpenBracket && toks[k].span == span
}

/// The expression at node `id` is written by `toks`: read from left to
/// right, its literals, names, operators and brackets are those tokens,
/// each node at the place of the token it was built from (a call and an
/// index at their opening bracket). A parenthesized expression is written
/// by what it encloses, in parentheses.
pub open spec fn spells(ast: AST, id: ASTNodeId, toks: Seq<Token>) -> bool
    decreases id.0, toks.len(),
{
    if 0 <= id.0 < ast.node_arena@.len() {
        let node = ast.node_arena@[id.0 as int];
        ||| (toks.len() >= 2 && toks[0].token_type is OpenParen && toks.last().token_type is CloseParen
            && spells(ast, id, toks.subrange(1, toks.len() - 1)))
        ||| match node.node_type {
            ASTNodeType::IntLiteral(s) => toks.len() == 1 && toks[0].token_type is IntLiteral && toks[0].symbol == s
                && toks[0].span == node.span,
            ASTNodeType::StringLiteral(s) => toks.len() == 1 && toks[0].token_type is StringLiteral && toks[0].symbol == s
                && toks[0].span == node.span,
            ASTNodeType::Variable(v) => v.type_annotation is None && toks.len() == 1 && toks[0].token_type is Identifier
                && toks[0].symbol == v.name && toks[0].span == node.span,
            ASTNodeType::UnaryOperator(n) => n.operand_id.0 < id.0 && toks.len() >= 1 && (
                (spec_prefix_unary_operator_type(toks[0].token_type) == Some(n.op_type) && toks[0].span == node.span
                    && spells(ast, n.operand_id, toks.drop_first()))
                || (spec_postfix_unary_operator_type(toks.last().token_type) == Some(n.op_type) && toks.last().span
                    == node.span && spells(ast, n.operand_id, toks.drop_last()))),
            ASTNodeType::BinaryOperator(n) => n.left.0 < id.0 && n.right.0 < id.0 && exists|k: int|
                0 < k < toks.len() - 1 && spec_binary_operator_type(#[trigger] toks[k].token_type) == Some(n.op_type)
                    && toks[k].span == node.span && spells(ast, n.left, toks.subrange(0, k))
                    && spells(ast, n.right, toks.subrange(k + 1, toks.len() as int)),
            ASTNodeType::FunctionCall(c) => c.function.0 < id.0 && toks.len() >= 2 && toks.last().token_type is CloseParen
                && exists|k: int| 0 < k < toks.len() - 1 && #[trigger] call_split(toks, k, node.span)
                    && spells(ast, c.function, toks.subrange(0, k))
                    && (k + 2 == toks.len() ==> c.args@.len() == 0)
                    && (k + 2 != toks.len() ==> exists|g: ASTNodeId| g.0 < id.0 && c.args@ == #[trigger] comma_operands(ast, g)
                        && spells(ast, g, toks.subrange(k + 1, toks.len() - 1))),
            ASTNodeType::Index(ix) => ix.operand.0 < id.0 && ix.arg.0 < id.0 && toks.len() >= 2
                && toks.last().token_type is CloseBracket && exists|k: int| 0 < k < toks.len() - 1
                && #[trigger] index_split(toks, k, node.span)
                && spells(ast, ix.operand, toks.subrange(0, k)) && spells(ast, ix.arg, toks.subrange(k + 1, toks.len() - 1)),
            _ => false,
        }
    } else {
        false
    }
}

/// Where the start of an expression at token `p` ends, if it parses: a
/// prefix operator and the expression it applies to; a name, or a name
/// with a colon and a type name without arguments; an expression in
/// parentheses; or a literal.
pub open spec fn primary_end(tokens: Seq<Token>, p: int) -> Option<int>
    decreases tokens.len() - p, 0nat,
{
    if 0 <= p < tokens.len() {
        let t = tokens[p].token_type;
        if spec_prefix_unary_operator_type(t) is Some {
            expr_end(tokens, p + 1, group_level(OperatorPrecedenceGroup::Prefix) as int)
        } else if t is Identifier {
            if p + 1 < tokens.len() && tokens[p + 1].token_type is Colon {
                if simple_type_at(tokens, p + 2) {
                    Some(p + 3)
                } else {
                    None
                }
            } else {
                Some(p + 1)
            }
        } else if t is OpenParen {
            match expr_end(tokens, p + 1, 0) {
                Some(q) => if 0 <= q < tokens.len() && tokens[q].token_type is CloseParen {
                    Some(q + 1)
                } else {
                    None
                },
                None => None,
            }
        } else if t is IntLiteral || t is StringLiteral {
            Some(p + 1)
        } else {
            None
        }
    } else {
        None
    }
}

/// Where the expression at token `p` whose operators bind at least as
/// tightly as `power` ends, if it parses: its start, then the operators
/// that continue it (see `rest_end`).
pub open spec fn expr_end(tokens: Seq<Token>, p: int, power: int) -> Option<int>
    decreases tokens.len() - p, 1nat,
{
    match primary_end(tokens, p) {
        Some(q) => if p < q <= tokens.len() {
            rest_end(tokens, q, power)
        } else {
            None
        },
        None => None,
    }
}

/// Where what continues an operator token at `q` ends, if it parses: the
/// right operand of a binary operator; nothing more for a postfix
/// operator; an index in brackets; call arguments in parentheses; a field
/// name after a dot.
pub open spec fn led_end(tokens: Seq<Token>, q: int) -> Option<int>
    decreases tokens.len() - q, 2nat,
{
    if 0 <= q < tokens.len() {
        let t = tokens[q].token_type;
        if spec_binary_operator_type(t) is Some && lhs_group(t) is Some {
            expr_end(tokens, q + 1, group_binding_power(lhs_group(t)->0).1 as int)
        } else if spec_postfix_unary_operator_type(t) is Some {
            Some(q + 1)
        } else if t is OpenBracket {
            match expr_end(tokens, q + 1, 0) {
                Some(r) => if 0 <= r < tokens.len() && tokens[r].token_type is CloseBracket {
                    Some(r + 1)
                } else {
                    None
                },
                None => None,
            }
        } else if t is OpenParen {
            if q + 1 < tokens.len() && tokens[q + 1].token_type is CloseParen {
                Some(q + 2)
            } else {
                match expr_end(tokens, q + 1, 0) {
                    Some(r) => if 0 <= r < tokens.len() && tokens[r].token_type is CloseParen {
                        Some(r + 1)
                    } else {
                        None
                    },
                    None => None,
                }
            }
        } else if t is Dot {
            if q + 1 < tokens.len() && tokens[q + 1].token_type is Identifier && !(q + 2 < tokens.len()
                && tokens[q + 2].token_type is OpenParen) {
                Some(q + 2)
            } else {
                None
            }
        } else {
            None
        }
    } else {
        None
    }
}

/// Where an expression whose operators bind at least as tightly as
/// `power` ends, once its part before token `q` is parsed: at the end of
/// the tokens, at a closing bracket or a colon, or before an operator that
/// binds more loosely; otherwise the operator at `q` continues it. A token
/// that can neither end nor continue it makes it fail.
pub open spec fn rest_end(tokens: Seq<Token>, q: int, power: int) -> Option<int>
    decreases tokens.len() - q, 3nat,
{
    if q >= tokens.len() || q < 0 {
        Some(q)
    } else if spec_is_terminal(tokens[q].token_type) {
        Some(q)
    } else {
        match lhs_group(tokens[q].token_type) {
            None => None,
            Some(g) => if group_level(g) < power {
                Some(q)
            } else {
                match led_end(tokens, q) {
                    Some(r) => if q < r <= tokens.len() {
                        rest_end(tokens, r, power)
                    } else {
                        None
                    },
                    None => None,
                }
            },
        }
    }
}

/// The token that can neither start nor continue the start of an
/// expression at token `p`, if parsing it meets one before anything else
/// fails: the token at `p` itself when no expression starts with it, or
/// one inside the operand of a prefix operator or inside parentheses.
pub open spec fn primary_invalid(tokens: Seq<Token>, p: int) -> Option<int>
    decreases tokens.len() - p, 0nat,
{
    if 0 <= p < tokens.len() {
        let t = tokens[p].token_type;
        if spec_prefix_unary_operator_type(t) is Some {
            expr_invalid(tokens, p + 1, group_level(OperatorPrecedenceGroup::Prefix) as int)
        } else if t is Identifier || t is IntLiteral || t is StringLiteral {
            None
        } else if t is OpenParen {
            expr_invalid(tokens, p + 1, 0)
        } else {
            Some(p)
        }
    } else {
        None
    }
}

/// The token, in the expression at token `p` whose operators bind at least
/// as tightly as `power`, that can neither start nor continue it, if
/// parsing meets one before anything else fails.
pub open spec fn expr_invalid(tokens: Seq<Token>, p: int, power: int) -> Option<int>
    decreases tokens.len() - p, 1nat,
{
    match primary_end(tokens, p) {
        Some(q) => if p < q <= tokens.len() {
            rest_invalid(tokens, q, power)
        } else {
            None
        },
        None => primary_invalid(tokens, p),
    }
}

/// Such a token in what continues the operator token at `q`.
pub open spec fn led_invalid(tokens: Seq<Token>, q: int) -> Option<int>
    decreases tokens.len() - q, 2nat,
{
    if 0 <= q < tokens.len() {
        let t = tokens[q].token_type;
        if spec_binary_operator_type(t) is Some && lhs_group(t) is Some {
            expr_invalid(tokens, q + 1, group_binding_power(lhs_group(t)->0).1 as int)
        } else if spec_postfix_unary_operator_type(t) is Some {
            None
        } else if t is OpenBracket {
            expr_invalid(tokens, q + 1, 0)
        } else if t is OpenParen {
            if q + 1 < tokens.len() && tokens[q + 1].token_type is CloseParen {
                None
            } else {
                expr_invalid(tokens, q + 1, 0)
            }
        } else {
            None
        }
    } else {
        None
    }
}

/// Such a token from token `q` on, once the part of the expression before
/// `q` is parsed: a token at `q` that neither ends nor continues it, or one
/// inside what continues it.
pub open spec fn rest_invalid(tokens: Seq<Token>, q: int, power: int) -> Option<int>
    decreases tokens.len() - q, 3nat,
{
    if q >= tokens.len() || q < 0 {
        None
    } else if spec_is_terminal(tokens[q].token_type) {
        None
    } else {
        match lhs_group(tokens[q].token_type) {
            None => Some(q),
            Some(g) => if group_level(g) < power {
                None
            } else {
                match led_end(tokens, q) {
                    Some(r) => if q < r <= tokens.len() {
                        rest_invalid(tokens, r, power)
                    } else {
                        None
                    },
                    None => led_invalid(tokens, q),
                }
            },
        }
    }
}

/// The operands of a comma chain stay the same as the AST grows.
pub proof fn lemma_comma_operands_extend(a: AST, b: AST, id: ASTNodeId)
    requires
        ast_extends(a, b),
        id.0 < a.node_arena@.len(),
    ensures
        comma_operands(a, id) == comma_operands(b, id),
    decreases id.0,
{
    assert(b.node_arena@[id.0 as int] == a.node_arena@[id.0 as int]);
    match a.node_arena@[id.0 as int].node_type {
        ASTNodeType::BinaryOperator(n) => {
            if n.op_type is CommaOperator && n.left.0 < id.0 {
                lemma_comma_operands_extend(a, b, n.left);
            }
        },
        _ => {},
    }
}

/// What a node spells stays spelled as the AST grows.
pub proof fn lemma_spells_extend(a: AST, b: AST, id: ASTNodeId, toks: Seq<Token>)
    requires
        ast_extends(a, b),
        spells(a, id, toks),
    ensures
        spells(b, id, toks),
    decreases id.0, toks.len(),
{
    let node = a.node_arena@[id.0 as int];
    assert(b.node_arena@[id.0 as int] == node);
    if toks.len() >= 2 && toks[0].token_type is OpenParen && toks.last().token_type is CloseParen
        && spells(a, id, toks.subrange(1, toks.len() - 1)) {
        lemma_spells_extend(a, b, id, toks.subrange(1, toks.len() - 1));
    } else {
        match node.node_type {
            ASTNodeType::UnaryOperator(n) => {
                if spec_prefix_unary_operator_type(toks[0].token_type) == Some(n.op_type) && toks[0].span == node.span
                    && spells(a, n.operand_id, toks.drop_first()) {
                    lemma_spells_extend(a, b, n.operand_id, toks.drop_first());
                } else {
                    lemma_spells_extend(a, b, n.operand_id, toks.drop_last());
                }
            },
            ASTNodeType::BinaryOperator(n) => {
                let k = choose|k: int|
                    0 < k < toks.len() - 1 && spec_binary_operator_type(#[trigger] toks[k].token_type) == Some(n.op_type)
                        && toks[k].span == node.span && spells(a, n.left, toks.subrange(0, k))
                        && spells(a, n.right, toks.subrange(k + 1, toks.len() as int));
                lemma_spells_extend(a, b, n.left, toks.subrange(0, k));
                lemma_spells_extend(a, b, n.right, toks.subrange(k + 1, toks.len() as int));
            },
            ASTNodeType::FunctionCall(c) => {
                let k = choose|k: int| 0 < k < toks.len() - 1 && #[trigger] call_split(toks, k, node.span)
                    && spells(a, c.function, toks.subrange(0, k))
                    && (k + 2 == toks.len() ==> c.args@.len() == 0)
                    && (k + 2 != toks.len() ==> exists|g: ASTNodeId| g.0 < id.0 && c.args@ == #[trigger] comma_operands(a, g)
                        && spells(a, g, toks.subrange(k + 1, toks.len() - 1)));
                lemma_spells_extend(a, b, c.function, toks.subrange(0, k));
                if k + 2 != toks.len() {
                    let g = choose|g: ASTNodeId| g.0 < id.0 && c.args@ == #[trigger] comma_operands(a, g)
                        && spells(a, g, toks.subrange(k + 1, toks.len() - 1));
                    lemma_spells_extend(a, b, g, toks.subrange(k + 1, toks.len() - 1));
                    lemma_comma_operands_extend(a, b, g);
                }
            },
            ASTNodeType::Index(ix) => {
                let k = choose|k: int| 0 < k < toks.len() - 1
                    && #[trigger] index_split(toks, k, node.span)
                    && spells(a, ix.operand, toks.subrange(0, k)) && spells(a, ix.arg, toks.subrange(k + 1, toks.len() - 1));
                lemma_spells_extend(a, b, ix.operand, toks.subrange(0, k));
                lemma_spells_extend(a, b, ix.arg, toks.subrange(k + 1, toks.len() - 1));
            },
            _ => {},
        }
    }
}

/// A Pratt parser for the expression that starts at the cursor of a token
/// stream, adding its nodes to an AST.
pub struct ExpressionParser<'a> {
    pub token_stream: TokenStream<'a>,
    pub ast: AST,
    pub scope_id: ScopeId,
}

/// `new` is `old` after parsing: the same tokens, a cursor that has not moved
/// back, an AST that only gained nodes, all of them expressions in the
/// parser's scope.
pub open spec fn advanced<'a>(old: ExpressionParser<'a>, new: ExpressionParser<'a>) -> bool {
    &&& new.token_stream.wf()
    &&& new.ast.wf()
    &&& new.token_stream.tokens == old.token_stream.tokens
    &&& new.token_stream.pos >= old.token_stream.pos
    &&& ast_extends(old.ast, new.ast)
    &&& new.ast.statement_root_node_ids == old.ast.statement_root_node_ids
    &&& new.scope_id == old.scope_id
    &&& nodes_in_scope(new.ast, old.ast.node_arena@.len() as int, new.scope_id)
}

/// `id` is an expression node of `ast`.
pub open spec fn is_expression_id(ast: AST, id: ASTNodeId) -> bool {
    &&& id.0 < ast.node_arena@.len()
    &&& is_expression(ast.node_arena@[id.0 as int].node_type)
}

impl<'a> ExpressionParser<'a> {
    pub open spec fn wf(&self) -> bool {
        self.token_stream.wf() && self.ast.wf()
    }

    pub fn new(token_stream: TokenStream<'a>, ast: AST, scope_id: ScopeId) -> (r: Self)
        ensures
            r.token_stream == token_stream,
            r.ast == ast,
            r.scope_id == scope_id,
    {
        Self { token_stream, ast, scope_id }
    }

    fn add_expression(&mut self, node_type: ASTNodeType, span: crate::source::source_span::SourceSpan) -> (r: ASTNodeId)
        requires
            old(self).wf(),
            is_expression(node_type),
            crate::ast::ast_node::children_below(node_type, old(self).ast.node_arena@.len() as int),
        ensures
            advanced(*old(self), *final(self)),
            final(self).token_stream == old(self).token_stream,
            r.0 == old(self).ast.node_arena@.len(),
            final(self).ast.node_arena@ == old(self).ast.node_arena@.push(
                ASTNode { node_type, span, scope_id: old(self).scope_id },
            ),
            is_expression_id(final(self).ast, r),
    {
        let node = ASTNode::new(node_type, span, self.scope_id);
        self.ast.add_node(node)
    }

    /// A literal token as an expression.
    fn parse_token(&mut self, token: &Token) -> (r: Result<ASTNodeId, CompilerError>)
        requires
            old(self).wf(),
        ensures
            r matches Ok(id) ==> id.0 + 1 == final(self).ast.node_arena@.len(),
            advanced(*old(self), *final(self)),
            final(self).token_stream == old(self).token_stream,
            r is Ok ==> precedence_respected(final(self).ast, old(self).ast.node_arena@.len() as int),
            r matches Ok(id) ==> binary_level(final(self).ast, id) is None,
            r matches Ok(id) ==> spells(final(self).ast, id, seq![*token]),
            r is Ok ==> basic_from(final(self).ast, old(self).ast.node_arena@.len() as int),
            match r {
                Ok(id) => is_expression_id(final(self).ast, id) && id.0 == old(self).ast.node_arena@.len() && (
                token.token_type is IntLiteral || token.token_type is StringLiteral),
                Err(e) => !(token.token_type is IntLiteral || token.token_type is StringLiteral) && e == (CompilerError {
                    error_type: ErrorKind::Syntax(SyntaxError::InvalidExpression),
                    span: token.span,
                }) && final(self).ast == old(self).ast,
            },
    {
        let expr = match token.token_type {
            TokenType::IntLiteral => ASTNodeType::IntLiteral(token.symbol),
            TokenType::StringLiteral => ASTNodeType::StringLiteral(token.symbol),
            _ => return Err(SyntaxError::InvalidExpression.at(token.span)),
        };
        Ok(self.add_expression(expr, token.span))
    }

    fn assert_group_closed(&mut self, open_token: &Token) -> (r: Result<(), CompilerError>)
        requires
            old(self).wf(),
            open_token.token_type is OpenParen || open_token.token_type is OpenBracket,
        ensures
            advanced(*old(self), *final(self)),
            final(self).ast == old(self).ast,
            r is Ok <==> (old(self).token_stream.spec_peek() matches Some(t) && (open_token.token_type is OpenParen
                ==> t.token_type is CloseParen) && (open_token.token_type is OpenBracket ==> t.token_type is CloseBracket)),
            r is Ok ==> final(self).token_stream.pos == old(self).token_stream.pos + 1,
            r matches Err(e) ==> e == (CompilerError {
                error_type: ErrorKind::Syntax(SyntaxError::UnmatchedGroupOpening(open_token.token_type)),
                span: open_token.span,
            }),
    {
        if self.token_stream.peek_matches(close_token(open_token)) {
            self.token_stream.next();
            Ok(())
        } else {
            Err(SyntaxError::UnmatchedGroupOpening(open_token.token_type).at(open_token.span))
        }
    }

    fn parse_required_grouped_expression(&mut self, open_token: &Token) -> (r: Result<ASTNodeId, CompilerError>)
        requires
            old(self).wf(),
            open_token.token_type is OpenParen || open_token.token_type is OpenBracket,
        ensures
            r matches Ok(id) ==> id.0 + 1 == final(self).ast.node_arena@.len(),
            r matches Ok(id) ==> id.0 >= old(self).ast.node_arena@.len(),
            advanced(*old(self), *final(self)),
            r matches Ok(id) ==> is_expression_id(final(self).ast, id) && final(self).token_stream.pos
                > old(self).token_stream.pos,
            r is Ok ==> (old(self).token_stream.spec_peek() matches Some(t) && can_start_expression(t.token_type)),
            old(self).token_stream.spec_peek() is None ==> r == Err::<ASTNodeId, CompilerError>(
                CompilerError {
                    error_type: ErrorKind::Syntax(SyntaxError::UnmatchedGroupOpening(open_token.token_type)),
                    span: open_token.span,
                },
            ),
            r is Ok ==> final(self).token_stream.pos >= old(self).token_stream.pos + 2
                && (open_token.token_type is OpenParen ==> old(self).token_stream.tokens@[final(self).token_stream.pos - 1].token_type is CloseParen)
                && (open_token.token_type is OpenBracket ==> old(self).token_stream.tokens@[final(self).token_stream.pos - 1].token_type is CloseBracket),
            r matches Ok(id) ==> (unannotated(old(self).token_stream.tokens@, old(self).token_stream.pos as int, final(self).token_stream.pos - 1)
                ==> spells(final(self).ast, id, old(self).token_stream.tokens@.subrange(old(self).token_stream.pos as int, final(self).token_stream.pos - 1))),
            (expr_end(old(self).token_stream.tokens@, old(self).token_stream.pos as int, 0) matches Some(q) && 0 <= q < old(self).token_stream.tokens@.len()
                && (open_token.token_type is OpenParen ==> old(self).token_stream.tokens@[q].token_type is CloseParen)
                && (open_token.token_type is OpenBracket ==> old(self).token_stream.tokens@[q].token_type is CloseBracket))
                ==> r is Ok && final(self).token_stream.pos == expr_end(old(self).token_stream.tokens@, old(self).token_stream.pos as int, 0)->0 + 1,
            (expr_end(old(self).token_stream.tokens@, old(self).token_stream.pos as int, 0) matches Some(q) && !(0 <= q < old(self).token_stream.tokens@.len()
                && (open_token.token_type is OpenParen ==> old(self).token_stream.tokens@[q].token_type is CloseParen)
                && (open_token.token_type is OpenBracket ==> old(self).token_stream.tokens@[q].token_type is CloseBracket)))
                ==> r == Err::<ASTNodeId, CompilerError>(
                CompilerError {
                    error_type: ErrorKind::Syntax(SyntaxError::UnmatchedGroupOpening(open_token.token_type)),
                    span: open_token.span,
                },
            ),
            expr_invalid(old(self).token_stream.tokens@, old(self).token_stream.pos as int, 0) matches Some(k) ==> r == Err::<ASTNodeId, CompilerError>(
                CompilerError {
                    error_type: ErrorKind::Syntax(SyntaxError::InvalidExpression),
                    span: old(self).token_stream.tokens@[k].span,
                },
            ),
        decreases old(self).token_stream.remaining(), 2nat,
    {
        if self.token_stream.empty() {
            return Err(SyntaxError::UnmatchedGroupOpening(open_token.token_type).at(open_token.span));
        }
        let group = self.parse_expression_rec(0)?;
        self.assert_group_closed(open_token)?;
        Ok(group)
    }

    fn parse_optional_grouped_expression(&mut self, open_token: &Token) -> (r: Result<Option<ASTNodeId>, CompilerError>)
        requires
            old(self).wf(),
            open_token.token_type is OpenParen,
        ensures
            advanced(*old(self), *final(self)),
            r matches Ok(Some(id)) ==> is_expression_id(final(self).ast, id),
            r is Ok ==> final(self).token_stream.pos > old(self).token_stream.pos,
            old(self).token_stream.spec_peek() is None ==> r == Err::<Option<ASTNodeId>, CompilerError>(
                CompilerError {
                    error_type: ErrorKind::Syntax(SyntaxError::UnmatchedGroupOpening(open_token.token_type)),
                    span: open_token.span,
                },
            ),
            (old(self).token_stream.spec_peek() matches Some(t) && t.token_type is CloseParen) ==> r
                == Ok::<Option<ASTNodeId>, CompilerError>(None) && final(self).ast == old(self).ast
                && final(self).token_stream.pos == old(self).token_stream.pos + 1,
            (operand_parses(old(self).token_stream.tokens@, old(self).token_stream.pos as int, 0) && operand_end(old(self).token_stream.tokens@, old(self).token_stream.pos as int)->0
                < old(self).token_stream.tokens@.len() && old(self).token_stream.tokens@[operand_end(old(self).token_stream.tokens@, old(self).token_stream.pos as int)->0].token_type is CloseParen)
                ==> r is Ok,
            r matches Ok(Some(id)) ==> id.0 >= old(self).ast.node_arena@.len(),
            r matches Ok(Some(id)) ==> (unannotated(old(self).token_stream.tokens@, old(self).token_stream.pos as int, final(self).token_stream.pos - 1)
                ==> spells(final(self).ast, id, old(self).token_stream.tokens@.subrange(old(self).token_stream.pos as int, final(self).token_stream.pos - 1))),
            !(old(self).token_stream.spec_peek() matches Some(t) && t.token_type is CloseParen) ==> (r is Ok ==> r matches Ok(Some(_))),
            r is Ok ==> final(self).token_stream.tokens@[final(self).token_stream.pos - 1].token_type is CloseParen,
            (operand_parses(old(self).token_stream.tokens@, old(self).token_stream.pos as int, 0) && !(operand_end(old(self).token_stream.tokens@, old(self).token_stream.pos as int)->0 < old(self).token_stream.tokens@.len() && old(self).token_stream.tokens@[operand_end(old(self).token_stream.tokens@, old(self).token_stream.pos as int)->0].token_type is CloseParen))
                ==> r == Err::<Option<ASTNodeId>, CompilerError>(
                CompilerError {
                    error_type: ErrorKind::Syntax(SyntaxError::UnmatchedGroupOpening(open_token.token_type)),
                    span: open_token.span,
                },
            ),
            simple_expression_at(old(self).token_stream.tokens@, old(self).token_stream.pos as int) ==> (r is Ok <==> (expression_end(old(self).token_stream.tokens@, old(self).token_stream.pos as int) < old(self).token_stream.tokens@.len() && old(self).token_stream.tokens@[expression_end(old(self).token_stream.tokens@, old(self).token_stream.pos as int)].token_type is CloseParen)),
            (simple_expression_at(old(self).token_stream.tokens@, old(self).token_stream.pos as int) && !(expression_end(old(self).token_stream.tokens@, old(self).token_stream.pos as int) < old(self).token_stream.tokens@.len() && old(self).token_stream.tokens@[expression_end(old(self).token_stream.tokens@, old(self).token_stream.pos as int)].token_type is CloseParen)) ==> r == Err::<Option<ASTNodeId>, CompilerError>(
                CompilerError {
                    error_type: ErrorKind::Syntax(SyntaxError::UnmatchedGroupOpening(open_token.token_type)),
                    span: open_token.span,
                },
            ),
            (expr_end(old(self).token_stream.tokens@, old(self).token_stream.pos as int, 0) matches Some(q) && 0 <= q < old(self).token_stream.tokens@.len() && old(self).token_stream.tokens@[q].token_type is CloseParen)
                ==> r is Ok && final(self).token_stream.pos == expr_end(old(self).token_stream.tokens@, old(self).token_stream.pos as int, 0)->0 + 1,
            (expr_end(old(self).token_stream.tokens@, old(self).token_stream.pos as int, 0) matches Some(q) && !(0 <= q < old(self).token_stream.tokens@.len() && old(self).token_stream.tokens@[q].token_type is CloseParen))
                ==> r == Err::<Option<ASTNodeId>, CompilerError>(
                CompilerError {
                    error_type: ErrorKind::Syntax(SyntaxError::UnmatchedGroupOpening(open_token.token_type)),
                    span: open_token.span,
                },
            ),
            (!(old(self).token_stream.spec_peek() matches Some(t) && t.token_type is CloseParen) && expr_invalid(old(self).token_stream.tokens@, old(self).token_stream.pos as int, 0) is Some) ==> r == Err::<Option<ASTNodeId>, CompilerError>(
                CompilerError {
                    error_type: ErrorKind::Syntax(SyntaxError::InvalidExpression),
                    span: old(self).token_stream.tokens@[expr_invalid(old(self).token_stream.tokens@, old(self).token_stream.pos as int, 0)->0].span,
                },
            ),
        decreases old(self).token_stream.remaining(), 2nat,
    {
        let group = match self.token_stream.peek() {
            Some(token) => {
                if token.token_type == TokenType::CloseParen {
                    None
                } else {
                    let ghost start = *self;
                    let g = self.parse_expression_rec(0)?;
                    proof {
                        let tokens = start.token_stream.tokens@;
                        if simple_expression_at(tokens, start.token_stream.pos as int) {
                            assert(self.token_stream.pos <= tokens.len());
                            lemma_plain_end(tokens, start.token_stream.pos as int, self.token_stream.pos as int);
                        }
                    }
                    Some(g)
                }
            },
            None => return Err(SyntaxError::UnmatchedGroupOpening(open_token.token_type).at(open_token.span)),
        };
        self.assert_group_closed(open_token)?;
        Ok(group)
    }

    /// The operands of a chain of comma operators, from the left: `a, b, c`
    /// gives `[a, b, c]`; any other expression gives itself alone.
    fn comma_separated(&self, root: ASTNodeId) -> (r: Vec<ASTNodeId>)
        requires
            self.ast.wf(),
            is_expression_id(self.ast, root),
        ensures
            r@ == comma_operands(self.ast, root),
            forall|i: int| 0 <= i < r@.len() ==> (#[trigger] r@[i]).0 <= root.0,
    {
        let mut rev_args: Vec<ASTNodeId> = Vec::new();
        let mut curr = root;
        loop
            invariant_except_break
                comma_operands(self.ast, root) == comma_operands(self.ast, curr) + rev_args@.reverse(),
            invariant
                self.ast.wf(),
                curr.0 <= root.0,
                curr.0 < self.ast.node_arena@.len(),
                forall|i: int| 0 <= i < rev_args@.len() ==> (#[trigger] rev_args@[i]).0 <= root.0,
            ensures
                comma_operands(self.ast, root) == rev_args@.reverse(),
                forall|i: int| 0 <= i < rev_args@.len() ==> (#[trigger] rev_args@[i]).0 <= root.0,
            decreases curr.0,
        {
            let node = self.ast.lookup(curr);
            match &node.node_type {
                ASTNodeType::BinaryOperator(op) => {
                    if op.op_type == BinaryOperator::CommaOperator {
                        assert(crate::ast::ast_node::children_below(self.ast.node_arena@[curr.0 as int].node_type, curr.0 as int));
                        let ghost before = rev_args@;
                        rev_args.push(op.right);
                        assert(rev_args@.reverse() =~= seq![op.right] + before.reverse());
                        assert(comma_operands(self.ast, curr) == comma_operands(self.ast, op.left).push(op.right));
                        assert(comma_operands(self.ast, op.left).push(op.right) + before.reverse()
                            =~= comma_operands(self.ast, op.left) + rev_args@.reverse());
                        curr = op.left;
                    } else {
                        let ghost before = rev_args@;
                        rev_args.push(curr);
                        assert(rev_args@.reverse() =~= seq![curr] + before.reverse());
                        break;
                    }
                },
                _ => {
                    let ghost before = rev_args@;
                    rev_args.push(curr);
                    assert(rev_args@.reverse() =~= seq![curr] + before.reverse());
                    break;
                },
            }
        }
        let mut args: Vec<ASTNodeId> = Vec::new();
        let mut k = rev_args.len();
        while k > 0
            invariant
                k <= rev_args@.len(),
                args@.len() + k == rev_args@.len(),
                args@ == rev_args@.reverse().subrange(0, args@.len() as int),
                forall|i: int| 0 <= i < rev_args@.len() ==> (#[trigger] rev_args@[i]).0 <= root.0,
                forall|i: int| 0 <= i < args@.len() ==> (#[trigger] args@[i]).0 <= root.0,
            decreases k,
        {
            k -= 1;
            args.push(rev_args[k]);
            assert(args@ =~= rev_args@.reverse().subrange(0, args@.len() as int));
        }
        assert(args@ =~= rev_args@.reverse());
        args
    }

    fn function_arg_expressions(&mut self, token: &Token) -> (r: Result<Vec<ASTNodeId>, CompilerError>)
        requires
            old(self).wf(),
            token.token_type is OpenParen,
        ensures
            advanced(*old(self), *final(self)),
            r matches Ok(args) ==> forall|i: int| 0 <= i < args@.len() ==> (#[trigger] args@[i]).0 < final(self).ast.node_arena@.len(),
            (old(self).token_stream.spec_peek() matches Some(t) && t.token_type is CloseParen) ==> (r matches Ok(args)
                && args@.len() == 0 && final(self).token_stream.pos == old(self).token_stream.pos + 1),
            r matches Ok(args) ==> args@.len() == 0 || exists|group: ASTNodeId| args@ == comma_operands(final(self).ast, group),
            r matches Ok(args) ==> (!(old(self).token_stream.spec_peek() matches Some(t) && t.token_type is CloseParen)
                ==> exists|group: ASTNodeId| group.0 >= old(self).ast.node_arena@.len() && is_expression_id(final(self).ast, group)
                && args@ == comma_operands(final(self).ast, group)
                && (unannotated(old(self).token_stream.tokens@, old(self).token_stream.pos as int, final(self).token_stream.pos - 1)
                ==> spells(final(self).ast, group, old(self).token_stream.tokens@.subrange(old(self).token_stream.pos as int, final(self).token_stream.pos - 1)))),
            r is Ok ==> final(self).token_stream.tokens@[final(self).token_stream.pos - 1].token_type is CloseParen
                && final(self).token_stream.pos > old(self).token_stream.pos,
            old(self).token_stream.spec_peek() is None ==> r == Err::<Vec<ASTNodeId>, CompilerError>(
                CompilerError {
                    error_type: ErrorKind::Syntax(SyntaxError::UnmatchedGroupOpening(TokenType::OpenParen)),
                    span: token.span,
                },
            ),
            (operand_parses(old(self).token_stream.tokens@, old(self).token_stream.pos as int, 0) && !(operand_end(old(self).token_stream.tokens@, old(self).token_stream.pos as int)->0 < old(self).token_stream.tokens@.len() && old(self).token_stream.tokens@[operand_end(old(self).token_stream.tokens@, old(self).token_stream.pos as int)->0].token_type is CloseParen))
                ==> r == Err::<Vec<ASTNodeId>, CompilerError>(
                CompilerError {
                    error_type: ErrorKind::Syntax(SyntaxError::UnmatchedGroupOpening(TokenType::OpenParen)),
                    span: token.span,
                },
            ),
            (operand_parses(old(self).token_stream.tokens@, old(self).token_stream.pos as int, 0) && operand_end(old(self).token_stream.tokens@, old(self).token_stream.pos as int)->0
                < old(self).token_stream.tokens@.len() && old(self).token_stream.tokens@[operand_end(old(self).token_stream.tokens@, old(self).token_stream.pos as int)->0].token_type is CloseParen)
                ==> r is Ok,
            simple_expression_at(old(self).token_stream.tokens@, old(self).token_stream.pos as int) ==> (r is Ok <==> (expression_end(old(self).token_stream.tokens@, old(self).token_stream.pos as int) < old(self).token_stream.tokens@.len() && old(self).token_stream.tokens@[expression_end(old(self).token_stream.tokens@, old(self).token_stream.pos as int)].token_type is CloseParen)),
            (simple_expression_at(old(self).token_stream.tokens@, old(self).token_stream.pos as int) && !(expression_end(old(self).token_stream.tokens@, old(self).token_stream.pos as int) < old(self).token_stream.tokens@.len() && old(self).token_stream.tokens@[expression_end(old(self).token_stream.tokens@, old(self).token_stream.pos as int)].token_type is CloseParen)) ==> r == Err::<Vec<ASTNodeId>, CompilerError>(
                CompilerError {
                    error_type: ErrorKind::Syntax(SyntaxError::UnmatchedGroupOpening(TokenType::OpenParen)),
                    span: token.span,
                },
            ),
            (expr_end(old(self).token_stream.tokens@, old(self).token_stream.pos as int, 0) matches Some(q) && 0 <= q < old(self).token_stream.tokens@.len() && old(self).token_stream.tokens@[q].token_type is CloseParen)
                ==> r is Ok && final(self).token_stream.pos == expr_end(old(self).token_stream.tokens@, old(self).token_stream.pos as int, 0)->0 + 1,
            (expr_end(old(self).token_stream.tokens@, old(self).token_stream.pos as int, 0) matches Some(q) && !(0 <= q < old(self).token_stream.tokens@.len() && old(self).token_stream.tokens@[q].token_type is CloseParen))
                ==> r == Err::<Vec<ASTNodeId>, CompilerError>(
                CompilerError {
                    error_type: ErrorKind::Syntax(SyntaxError::UnmatchedGroupOpening(token.token_type)),
                    span: token.span,
                },
            ),
            (!(old(self).token_stream.spec_peek() matches Some(t) && t.token_type is CloseParen) && expr_invalid(old(self).token_stream.tokens@, old(self).token_stream.pos as int, 0) is Some) ==> r == Err::<Vec<ASTNodeId>, CompilerError>(
                CompilerError {
                    error_type: ErrorKind::Syntax(SyntaxError::InvalidExpression),
                    span: old(self).token_stream.tokens@[expr_invalid(old(self).token_stream.tokens@, old(self).token_stream.pos as int, 0)->0].span,
                },
            ),
        decreases old(self).token_stream.remaining(), 3nat,
    {
        let args = self.parse_optional_grouped_expression(token)?;
        match args {
            Some(args_id) => Ok(self.comma_separated(args_id)),
            None => Ok(Vec::new()),
        }
    }

    fn parse_accessed_member(&mut self) -> (r: Result<Member, CompilerError>)
        requires
            old(self).wf(),
        ensures
            advanced(*old(self), *final(self)),
            (ungrouped(old(self).token_stream.tokens@, old(self).token_stream.pos as int, final(self).token_stream.pos as int) && r is Ok) ==> final(self).ast == old(self).ast,
            ((old(self).token_stream.spec_peek() matches Some(t) && t.token_type is Identifier) && !(old(self).token_stream.pos + 1
                < old(self).token_stream.tokens@.len() && old(self).token_stream.tokens@[old(self).token_stream.pos + 1].token_type is OpenParen))
                ==> (r matches Ok(m) && m.member_type is Field && final(self).token_stream.pos == old(self).token_stream.pos + 1),
            r matches Ok(m) ==> {
                &&& old(self).token_stream.spec_peek() matches Some(t) && t.token_type is Identifier && m.name == t.symbol
                    && m.span == t.span
                &&& m.member_type matches crate::ast::access_node::MemberType::Method(args) ==> forall|i: int|
                    0 <= i < args@.len() ==> (#[trigger] args@[i]).0 < final(self).ast.node_arena@.len()
            },
        decreases old(self).token_stream.remaining(), 3nat,
    {
        let member_name = self.token_stream.expect_next_token(TokenType::Identifier)?;
        if self.token_stream.peek_matches(TokenType::OpenParen) {
            self.token_stream.next();
            let member = if self.token_stream.peek_matches(TokenType::CloseParen) {
                Member::method(member_name.symbol, Vec::new(), member_name.span)
            } else {
                let args = self.parse_expression_rec(0)?;
                Member::method(member_name.symbol, self.comma_separated(args), member_name.span)
            };
            self.token_stream.next();
            Ok(member)
        } else {
            Ok(Member::field(member_name.symbol, member_name.span))
        }
    }

    fn parse_variable(&mut self, token: &Token) -> (r: Result<ASTNodeId, CompilerError>)
        requires
            old(self).wf(),
            token.token_type is Identifier,
        ensures
            r matches Ok(id) ==> id.0 + 1 == final(self).ast.node_arena@.len(),
            r matches Ok(id) ==> id.0 >= old(self).ast.node_arena@.len(),
            advanced(*old(self), *final(self)),
            r is Ok ==> precedence_respected(final(self).ast, old(self).ast.node_arena@.len() as int),
            r matches Ok(id) ==> binary_level(final(self).ast, id) is None,
            !(old(self).token_stream.spec_peek() matches Some(t) && t.token_type is Colon) ==> r is Ok
                && final(self).token_stream.pos == old(self).token_stream.pos,
            r matches Ok(id) ==> (!(old(self).token_stream.spec_peek() matches Some(t) && t.token_type is Colon)
                ==> spells(final(self).ast, id, seq![*token])),
            (r is Ok && (old(self).token_stream.spec_peek() matches Some(t) && t.token_type is Colon))
                ==> final(self).token_stream.pos > old(self).token_stream.pos,
            r is Ok ==> basic_from(final(self).ast, old(self).ast.node_arena@.len() as int),
            r matches Ok(id) ==> {
                &&& is_expression_id(final(self).ast, id)
                &&& final(self).ast.node_arena@[id.0 as int].span == token.span
                &&& final(self).ast.node_arena@[id.0 as int].node_type matches ASTNodeType::Variable(v)
                &&& v.name == token.symbol
                &&& (v.type_annotation is Some <==> (old(self).token_stream.spec_peek() matches Some(t)
                    && t.token_type is Colon))
            },
            ((old(self).token_stream.spec_peek() matches Some(t) && t.token_type is Colon) && simple_type_at(old(self).token_stream.tokens@, old(self).token_stream.pos as int + 1))
                ==> r is Ok && final(self).token_stream.pos == old(self).token_stream.pos as int + 2,
    {
        let type_annotation = if self.token_stream.peek_matches(TokenType::Colon) {
            self.token_stream.next();
            Some(parse_type_annotation(&mut self.token_stream)?)
        } else {
            None
        };
        let var_node = ASTNodeType::Variable(VariableNode::new(token.symbol, type_annotation));
        Ok(self.add_expression(var_node, token.span))
    }

    fn parse_unary_operation(&mut self, unary_op_type: UnaryOperator, token: &Token) -> (r: Result<ASTNodeId, CompilerError>)
        requires
            old(self).wf(),
            spec_prefix_unary_operator_type(token.token_type) == Some(unary_op_type),
        ensures
            (unannotated(old(self).token_stream.tokens@, old(self).token_stream.pos as int, final(self).token_stream.pos as int) && r is Ok)
                ==> spells(final(self).ast, r->Ok_0, seq![*token] + old(self).token_stream.tokens@.subrange(old(self).token_stream.pos as int, final(self).token_stream.pos as int)),
            r matches Ok(id) ==> id.0 + 1 == final(self).ast.node_arena@.len(),
            r matches Ok(id) ==> id.0 >= old(self).ast.node_arena@.len(),
            advanced(*old(self), *final(self)),
            (ungrouped(old(self).token_stream.tokens@, old(self).token_stream.pos as int, final(self).token_stream.pos as int) && r is Ok) ==> precedence_respected(final(self).ast, old(self).ast.node_arena@.len() as int),
            r matches Ok(id) ==> binary_level(final(self).ast, id) is None,
            operand_parses(old(self).token_stream.tokens@, old(self).token_stream.pos as int, 12) ==> r is Ok
                && final(self).token_stream.pos == operand_end(old(self).token_stream.tokens@, old(self).token_stream.pos as int)->0,
            r matches Ok(id) ==> {
                &&& is_expression_id(final(self).ast, id)
                &&& final(self).token_stream.pos > old(self).token_stream.pos
                &&& final(self).ast.node_arena@[id.0 as int].span == token.span
                &&& final(self).ast.node_arena@[id.0 as int].node_type matches ASTNodeType::UnaryOperator(n)
                &&& n.op_type == unary_op_type
            },
            (plain(old(self).token_stream.tokens@, old(self).token_stream.pos as int, final(self).token_stream.pos as int) && r is Ok) ==> basic_from(final(self).ast, old(self).ast.node_arena@.len() as int),
            expr_end(old(self).token_stream.tokens@, old(self).token_stream.pos as int, group_level(OperatorPrecedenceGroup::Prefix) as int) matches Some(e) ==> r is Ok && final(self).token_stream.pos == e,
            expr_invalid(old(self).token_stream.tokens@, old(self).token_stream.pos as int, group_level(OperatorPrecedenceGroup::Prefix) as int) matches Some(k) ==> r == Err::<ASTNodeId, CompilerError>(
                CompilerError {
                    error_type: ErrorKind::Syntax(SyntaxError::InvalidExpression),
                    span: old(self).token_stream.tokens@[k].span,
                },
            ),
        decreases old(self).token_stream.remaining(), 2nat,
    {
        let operand = self.parse_expression_rec(OperatorPrecedenceGroup::Prefix.as_u8())?;
        let ghost mid = self.ast;
        let unary_node = ASTNodeType::UnaryOperator(UnaryOperatorNode::new(unary_op_type, operand));
        let id = self.add_expression(unary_node, token.span);
        proof {
            let tokens = old(self).token_stream.tokens@;
            let sub = tokens.subrange(old(self).token_stream.pos as int, self.token_stream.pos as int);
            if plain(tokens, old(self).token_stream.pos as int, self.token_stream.pos as int) {
                lemma_basic_compose(mid, self.ast, old(self).ast.node_arena@.len() as int);
            }
            if unannotated(tokens, old(self).token_stream.pos as int, self.token_stream.pos as int) {
                lemma_spells_extend(mid, self.ast, operand, sub);
                assert((seq![*token] + sub).drop_first() =~= sub);
            }
        }
        Ok(id)
    }

    /// The start of an expression: a prefix operation, a variable, a
    /// parenthesized expression or a literal.
    fn nud_hook(&mut self) -> (r: Result<ASTNodeId, CompilerError>)
        requires
            old(self).wf(),
        ensures
            r matches Ok(id) ==> id.0 + 1 == final(self).ast.node_arena@.len(),
            r matches Ok(id) ==> id.0 >= old(self).ast.node_arena@.len(),
            advanced(*old(self), *final(self)),
            (ungrouped(old(self).token_stream.tokens@, old(self).token_stream.pos as int, final(self).token_stream.pos as int) && r is Ok) ==> precedence_respected(final(self).ast, old(self).ast.node_arena@.len() as int),
            (ungrouped(old(self).token_stream.tokens@, old(self).token_stream.pos as int, final(self).token_stream.pos as int) && r is Ok) ==> binary_level(final(self).ast, r->Ok_0) is None,
            r matches Ok(id) ==> is_expression_id(final(self).ast, id) && final(self).token_stream.pos
                > old(self).token_stream.pos,
            r is Ok ==> (old(self).token_stream.spec_peek() matches Some(t) && can_start_expression(t.token_type)),
            operand_ok(old(self).token_stream.tokens@, old(self).token_stream.pos as int) ==> r is Ok
                && final(self).token_stream.pos == operand_end(old(self).token_stream.tokens@, old(self).token_stream.pos as int)->0,
            old(self).token_stream.spec_peek() is None ==> r == Err::<ASTNodeId, CompilerError>(
                CompilerError {
                    error_type: ErrorKind::Syntax(SyntaxError::ExpressionExpected),
                    span: crate::source::source_span::SourceSpan {
                        start: old(self).token_stream.tokens@[old(self).token_stream.prev as int].span.end,
                        end: crate::source::source_span::SourceLocation {
                            line_index: old(self).token_stream.tokens@[old(self).token_stream.prev as int].span.end.line_index,
                            char_index: (old(self).token_stream.tokens@[old(self).token_stream.prev as int].span.end.char_index
                                + 1) as usize,
                        },
                    },
                },
            ),
            (unannotated(old(self).token_stream.tokens@, old(self).token_stream.pos as int, final(self).token_stream.pos as int) && r is Ok)
                ==> spells(final(self).ast, r->Ok_0, old(self).token_stream.tokens@.subrange(old(self).token_stream.pos as int, final(self).token_stream.pos as int)),
            (plain(old(self).token_stream.tokens@, old(self).token_stream.pos as int, final(self).token_stream.pos as int) && r is Ok) ==> basic_from(final(self).ast, old(self).ast.node_arena@.len() as int),
            primary_end(old(self).token_stream.tokens@, old(self).token_stream.pos as int) matches Some(e) ==> r is Ok && final(self).token_stream.pos == e,
            primary_invalid(old(self).token_stream.tokens@, old(self).token_stream.pos as int) matches Some(k) ==> r == Err::<ASTNodeId, CompilerError>(
                CompilerError {
                    error_type: ErrorKind::Syntax(SyntaxError::InvalidExpression),
                    span: old(self).token_stream.tokens@[k].span,
                },
            ),
        decreases old(self).token_stream.remaining(), 0nat,
    {
        let ghost tokens = self.token_stream.tokens@;
        let ghost start = self.token_stream.pos as int;
        match self.token_stream.next() {
            None => Err(SyntaxError::ExpressionExpected.at(self.token_stream.end_span())),
            Some(token) => {
                assert(token == tokens[start]);
                if let Some(unary_op_type) = prefix_unary_operator_type(&token) {
                    let r = self.parse_unary_operation(unary_op_type, &token);
                    assert(seq![token] + tokens.subrange(start + 1, self.token_stream.pos as int) =~= tokens.subrange(start, self.token_stream.pos as int));
                    r
                } else if token.token_type == TokenType::Identifier {
                    let r = self.parse_variable(&token);
                    proof {
                        if r is Ok && unannotated(tokens, start, self.token_stream.pos as int) {
                            if self.token_stream.pos > start + 1 {
                                assert(!(tokens[start + 1].token_type is Colon));
                            }
                            assert(seq![token] =~= tokens.subrange(start, self.token_stream.pos as int));
                        }
                    }
                    r
                } else if token.token_type == TokenType::OpenParen {
                    let r = self.parse_required_grouped_expression(&token);
                    proof {
                        if r is Ok {
                            let q = self.token_stream.pos as int;
                            assert(!plain(tokens, start, q)) by {
                                assert(tokens[start].token_type is OpenParen);
                            }
                            let toks = tokens.subrange(start, q);
                            assert(toks.subrange(1, toks.len() - 1) =~= tokens.subrange(start + 1, q - 1));
                            assert(toks[0] == token);
                            assert(toks.last() == tokens[q - 1]);
                        }
                    }
                    r
                } else {
                    let r = self.parse_token(&token);
                    assert(seq![token] =~= tokens.subrange(start, start + 1));
                    r
                }
            },
        }
    }

    /// Continues the expression `left_node` with the operator `token`, whose
    /// right operand binds at `right_precedence`.
    fn led_hook(&mut self, token: &Token, left_node: ASTNodeId, right_precedence: u8) -> (r: Result<ASTNodeId, CompilerError>)
        requires
            old(self).wf(),
            is_expression_id(old(self).ast, left_node),
            lhs_group(token.token_type) is Some,
            right_precedence as int == group_binding_power(lhs_group(token.token_type)->0).1,
        ensures
            r matches Ok(id) ==> id.0 + 1 == final(self).ast.node_arena@.len(),
            advanced(*old(self), *final(self)),
            (ungrouped(old(self).token_stream.tokens@, old(self).token_stream.pos as int, final(self).token_stream.pos as int) && r is Ok && !(token.token_type is OpenParen) && !(token.token_type is OpenBracket)
                && (binary_level(old(self).ast, left_node) matches Some(l) ==> l >= group_level(lhs_group(token.token_type)->0)))
                ==> precedence_respected(final(self).ast, old(self).ast.node_arena@.len() as int) && (binary_level(final(self).ast, r->Ok_0) matches Some(l) ==> l
                == group_level(lhs_group(token.token_type)->0) && binary_right_power(final(self).ast, r->Ok_0) == Some(right_precedence as int)
                && stops_before(final(self).token_stream.spec_peek(), right_precedence as int)),
            r matches Ok(id) ==> is_expression_id(final(self).ast, id) && id.0 >= old(self).ast.node_arena@.len()
                && final(self).ast.node_arena@[id.0 as int].span == token.span,
            r matches Ok(id) ==> (spec_binary_operator_type(token.token_type) matches Some(op)
                ==> final(self).ast.node_arena@[id.0 as int].node_type matches ASTNodeType::BinaryOperator(n) && n.op_type == op
                && n.left == left_node),
            r matches Ok(id) ==> (spec_postfix_unary_operator_type(token.token_type) matches Some(op)
                ==> final(self).ast.node_arena@[id.0 as int].node_type == ASTNodeType::UnaryOperator(
                UnaryOperatorNode { op_type: op, operand_id: left_node },
            )),
            spec_postfix_unary_operator_type(token.token_type) is Some ==> r is Ok && final(self).token_stream.pos == old(self).token_stream.pos,
            (spec_binary_operator_type(token.token_type) is Some && invalid_after_operands(old(self).token_stream.tokens@, old(self).token_stream.pos as int) is Some) ==> (r == Err::<ASTNodeId, CompilerError>(CompilerError {
                    error_type: ErrorKind::Syntax(SyntaxError::InvalidExpression),
                    span: old(self).token_stream.tokens@[invalid_after_operands(old(self).token_stream.tokens@, old(self).token_stream.pos as int)->0].span,
                }) || (r is Ok
                && leads_to_invalid(old(self).token_stream.tokens@, final(self).token_stream.pos as int, invalid_after_operands(old(self).token_stream.tokens@, old(self).token_stream.pos as int)->0))),
            (spec_binary_operator_type(token.token_type) is Some && simple_expression_at(old(self).token_stream.tokens@, old(self).token_stream.pos as int))
                ==> r is Ok && simple_rest(old(self).token_stream.tokens@, final(self).token_stream.pos as int)
                && plain(old(self).token_stream.tokens@, old(self).token_stream.pos as int, final(self).token_stream.pos as int),
            (unannotated(old(self).token_stream.tokens@, old(self).token_stream.pos as int, final(self).token_stream.pos as int) && r is Ok
                && (spec_binary_operator_type(token.token_type) is Some || spec_postfix_unary_operator_type(token.token_type) is Some
                || token.token_type is OpenParen || token.token_type is OpenBracket))
                ==> forall|lt: Seq<Token>| #[trigger] spells(old(self).ast, left_node, lt) ==> spells(final(self).ast, r->Ok_0,
                lt + seq![*token] + old(self).token_stream.tokens@.subrange(old(self).token_stream.pos as int, final(self).token_stream.pos as int)),
            (spec_binary_operator_type(token.token_type) is Some && operand_parses(old(self).token_stream.tokens@, old(self).token_stream.pos as int, right_precedence as int))
                ==> r is Ok && final(self).token_stream.pos == operand_end(old(self).token_stream.tokens@, old(self).token_stream.pos as int)->0,
            (token.token_type is OpenParen && (old(self).token_stream.spec_peek() matches Some(t) && t.token_type is CloseParen)) ==> r is Ok,
            (token.token_type is Dot && (old(self).token_stream.spec_peek() matches Some(t) && t.token_type is Identifier) && !(old(self).token_stream.pos + 1
                < old(self).token_stream.tokens@.len() && old(self).token_stream.tokens@[old(self).token_stream.pos + 1].token_type is OpenParen))
                ==> r is Ok && final(self).token_stream.pos == old(self).token_stream.pos + 1,
            (plain(old(self).token_stream.tokens@, old(self).token_stream.pos as int, final(self).token_stream.pos as int) && r is Ok && (spec_binary_operator_type(token.token_type) is Some || spec_postfix_unary_operator_type(token.token_type) is Some))
                ==> basic_from(final(self).ast, old(self).ast.node_arena@.len() as int),
            (old(self).token_stream.tokens@[old(self).token_stream.pos as int - 1] == *token && led_end(old(self).token_stream.tokens@, old(self).token_stream.pos as int - 1) is Some) ==> r is Ok && final(self).token_stream.pos == led_end(old(self).token_stream.tokens@, old(self).token_stream.pos as int - 1)->0,
            (old(self).token_stream.tokens@[old(self).token_stream.pos as int - 1] == *token && led_invalid(old(self).token_stream.tokens@, old(self).token_stream.pos as int - 1) is Some) ==> r == Err::<ASTNodeId, CompilerError>(
                CompilerError {
                    error_type: ErrorKind::Syntax(SyntaxError::InvalidExpression),
                    span: old(self).token_stream.tokens@[led_invalid(old(self).token_stream.tokens@, old(self).token_stream.pos as int - 1)->0].span,
                },
            ),
        decreases old(self).token_stream.remaining(), 4nat,
    {
        proof {
            lemma_lhs_tokens_are_handled(token.token_type);
        }
        let node = if let Some(op_type) = binary_operator_type(token) {
            let right_node = self.parse_expression_rec(right_precedence)?;
            ASTNodeType::BinaryOperator(BinaryOperatorNode::new(op_type, left_node, right_node))
        } else if let Some(op_type) = postfix_unary_operator_type(token) {
            ASTNodeType::UnaryOperator(UnaryOperatorNode::new(op_type, left_node))
        } else if token.token_type == TokenType::OpenBracket {
            let args = self.parse_required_grouped_expression(token)?;
            ASTNodeType::Index(IndexNode::new(left_node, args))
        } else if token.token_type == TokenType::OpenParen {
            let args = self.function_arg_expressions(token)?;
            ASTNodeType::FunctionCall(FunctionCallNode::new(left_node, args))
        } else {
            let member = self.parse_accessed_member()?;
            ASTNodeType::Access(AccessNode::new(left_node, member))
        };
        let ghost mid = self.ast;
        let ghost node_g = node;
        let id = self.add_expression(node, token.span);
        proof {
            let tokens = old(self).token_stream.tokens@;
            let p = old(self).token_stream.pos as int;
            let q = self.token_stream.pos as int;
            let sub = tokens.subrange(p, q);
            if plain(tokens, p, q) && spec_binary_operator_type(token.token_type) is Some {
                lemma_basic_compose(mid, self.ast, old(self).ast.node_arena@.len() as int);
            }
            if unannotated(tokens, p, q) {
                match node_g {
                    ASTNodeType::BinaryOperator(n) => {
                        if spec_binary_operator_type(token.token_type) is Some {
                            lemma_spells_extend(mid, self.ast, n.right, sub);
                            assert forall|lt: Seq<Token>| #[trigger] spells(old(self).ast, left_node, lt) implies spells(self.ast, id, lt + seq![*token] + sub) by {
                                lemma_spells_extend(old(self).ast, self.ast, left_node, lt);
                                let all = lt + seq![*token] + sub;
                                assert(all.subrange(0, lt.len() as int) =~= lt);
                                assert(all.subrange(lt.len() as int + 1, all.len() as int) =~= sub);
                                assert(all[lt.len() as int] == *token);
                            }
                        }
                    },
                    ASTNodeType::UnaryOperator(n) => {
                        assert forall|lt: Seq<Token>| #[trigger] spells(old(self).ast, left_node, lt) implies spells(self.ast, id, lt + seq![*token] + sub) by {
                            lemma_spells_extend(old(self).ast, self.ast, left_node, lt);
                            let all = lt + seq![*token] + sub;
                            assert(sub.len() == 0);
                            assert(all.drop_last() =~= lt);
                        }
                    },
                    ASTNodeType::FunctionCall(c) => {
                        let inner = tokens.subrange(p, q - 1);
                        if q > p + 1 {
                            let g = choose|g: ASTNodeId| g.0 >= old(self).ast.node_arena@.len() && is_expression_id(mid, g)
                                && c.args@ == comma_operands(mid, g) && (unannotated(tokens, p, q - 1) ==> spells(mid, g, inner));
                            lemma_spells_extend(mid, self.ast, g, inner);
                            lemma_comma_operands_extend(mid, self.ast, g);
                        }
                        assert forall|lt: Seq<Token>| #[trigger] spells(old(self).ast, left_node, lt) implies spells(self.ast, id, lt + seq![*token] + sub) by {
                            lemma_spells_extend(old(self).ast, self.ast, left_node, lt);
                            let all = lt + seq![*token] + sub;
                            let k = lt.len() as int;
                            assert(all.subrange(0, k) =~= lt);
                            assert(all[k] == *token);
                            assert(call_split(all, k, token.span));
                            assert(all.last() == tokens[q - 1]);
                            assert(all.subrange(k + 1, all.len() - 1) =~= inner);
                            assert(self.ast.node_arena@[id.0 as int].node_type == node_g);
                            assert(self.ast.node_arena@[id.0 as int].span == token.span);
                            assert(0 < k < all.len() - 1);
                            assert(spells(self.ast, c.function, all.subrange(0, k)));
                            if q > p + 1 {
                                let g = choose|g: ASTNodeId| g.0 >= old(self).ast.node_arena@.len() && is_expression_id(mid, g)
                                    && c.args@ == comma_operands(mid, g) && (unannotated(tokens, p, q - 1) ==> spells(mid, g, inner));
                                assert(c.args@ == comma_operands(self.ast, g));
                                assert(spells(self.ast, g, all.subrange(k + 1, all.len() - 1)));
                                assert(g.0 < id.0);
                                assert(k + 2 != all.len());
                                assert(exists|g: ASTNodeId| g.0 < id.0 && c.args@ == #[trigger] comma_operands(self.ast, g)
                                    && spells(self.ast, g, all.subrange(k + 1, all.len() - 1)));
                            } else {
                                assert(k + 2 == all.len());
                                assert(c.args@.len() == 0);
                            }
                            assert(exists|k: int| 0 < k < all.len() - 1 && #[trigger] call_split(all, k, self.ast.node_arena@[id.0 as int].span)
                                && spells(self.ast, c.function, all.subrange(0, k))
                                && (k + 2 == all.len() ==> c.args@.len() == 0)
                                && (k + 2 != all.len() ==> exists|g: ASTNodeId| g.0 < id.0 && c.args@ == #[trigger] comma_operands(self.ast, g)
                                    && spells(self.ast, g, all.subrange(k + 1, all.len() - 1))));
                        }
                    },
                    ASTNodeType::Index(ix) => {
                        let inner = tokens.subrange(p, q - 1);
                        assert(unannotated(tokens, p, q - 1));
                        assert(spells(mid, ix.arg, inner));
                        lemma_spells_extend(mid, self.ast, ix.arg, inner);
                        assert forall|lt: Seq<Token>| #[trigger] spells(old(self).ast, left_node, lt) implies spells(self.ast, id, lt + seq![*token] + sub) by {
                            lemma_spells_extend(old(self).ast, self.ast, left_node, lt);
                            let all = lt + seq![*token] + sub;
                            let k = lt.len() as int;
                            assert(all.subrange(0, k) =~= lt);
                            assert(all[k] == *token);
                            assert(index_split(all, k, token.span));
                            assert(all.last() == tokens[q - 1]);
                            assert(all.subrange(k + 1, all.len() - 1) =~= inner);
                            assert(0 < k);
                            assert(k < all.len() - 1);
                            assert(spells(self.ast, ix.operand, all.subrange(0, k)));
                            assert(spells(self.ast, ix.arg, all.subrange(k + 1, all.len() - 1)));
                            assert(self.ast.node_arena@[id.0 as int].node_type == node_g);
                            assert(self.ast.node_arena@[id.0 as int].span == token.span);
                            assert(ix.arg.0 < id.0);
                            assert(ix.operand.0 < id.0);
                            assert(all.len() >= 2);
                            assert(all.last().token_type is CloseBracket);
                            assert(exists|k: int| 0 < k < all.len() - 1 && #[trigger] index_split(all, k, self.ast.node_arena@[id.0 as int].span)
                                && spells(self.ast, ix.operand, all.subrange(0, k)) && spells(self.ast, ix.arg, all.subrange(k + 1, all.len() - 1)));
                        }
                    },
                    _ => {},
                }
            }
        }
        Ok(id)
    }

    /// Parses an expression whose operators bind at least as tightly as
    /// `curr_precedence`, stopping before a closing bracket, a colon, a
    /// looser operator or the end of the tokens.
    #[verifier::rlimit(60)]
    #[verifier::spinoff_prover]
    pub fn parse_expression_rec(&mut self, curr_precedence: u8) -> (r: Result<ASTNodeId, CompilerError>)
        requires
            old(self).wf(),
        ensures
            old(self).token_stream.spec_peek() is None ==> r == Err::<ASTNodeId, CompilerError>(
                CompilerError {
                    error_type: ErrorKind::Syntax(SyntaxError::ExpressionExpected),
                    span: crate::source::source_span::SourceSpan {
                        start: old(self).token_stream.tokens@[old(self).token_stream.prev as int].span.end,
                        end: crate::source::source_span::SourceLocation {
                            line_index: old(self).token_stream.tokens@[old(self).token_stream.prev as int].span.end.line_index,
                            char_index: (old(self).token_stream.tokens@[old(self).token_stream.prev as int].span.end.char_index + 1) as usize,
                        },
                    },
                },
            ),
            (operand_ok(old(self).token_stream.tokens@, old(self).token_stream.pos as int) && operand_end(old(self).token_stream.tokens@, old(self).token_stream.pos as int)->0
                < old(self).token_stream.tokens@.len() && !spec_is_terminal(old(self).token_stream.tokens@[operand_end(old(self).token_stream.tokens@, old(self).token_stream.pos as int)->0].token_type)
                && lhs_group(old(self).token_stream.tokens@[operand_end(old(self).token_stream.tokens@, old(self).token_stream.pos as int)->0].token_type) is None) ==> r == Err::<ASTNodeId, CompilerError>(
                CompilerError {
                    error_type: ErrorKind::Syntax(SyntaxError::InvalidExpression),
                    span: old(self).token_stream.tokens@[operand_end(old(self).token_stream.tokens@, old(self).token_stream.pos as int)->0].span,
                },
            ),
            r matches Ok(id) ==> id.0 + 1 == final(self).ast.node_arena@.len(),
            r matches Ok(id) ==> id.0 >= old(self).ast.node_arena@.len(),
            advanced(*old(self), *final(self)),
            (ungrouped(old(self).token_stream.tokens@, old(self).token_stream.pos as int, final(self).token_stream.pos as int) && r is Ok) ==> precedence_respected(final(self).ast, old(self).ast.node_arena@.len() as int) && (binary_level(final(self).ast, r->Ok_0) matches Some(l)
                ==> l >= curr_precedence),
            r matches Ok(id) ==> is_expression_id(final(self).ast, id) && final(self).token_stream.pos
                > old(self).token_stream.pos,
            r is Ok ==> (final(self).token_stream.spec_peek() matches Some(t) ==> spec_is_terminal(t.token_type)
                || (lhs_group(t.token_type) matches Some(g) && group_level(g) < curr_precedence)),
            r is Ok ==> (old(self).token_stream.spec_peek() matches Some(t) && can_start_expression(t.token_type)),
            old(self).token_stream.spec_peek() is None ==> r is Err,
            operand_parses(old(self).token_stream.tokens@, old(self).token_stream.pos as int, curr_precedence as int) ==> r is Ok
                && final(self).token_stream.pos == operand_end(old(self).token_stream.tokens@, old(self).token_stream.pos as int)->0,
            (unannotated(old(self).token_stream.tokens@, old(self).token_stream.pos as int, final(self).token_stream.pos as int) && r is Ok)
                ==> spells(final(self).ast, r->Ok_0, old(self).token_stream.tokens@.subrange(old(self).token_stream.pos as int, final(self).token_stream.pos as int)),
            simple_expression_at(old(self).token_stream.tokens@, old(self).token_stream.pos as int) ==> r is Ok
                && simple_rest(old(self).token_stream.tokens@, final(self).token_stream.pos as int)
                && plain(old(self).token_stream.tokens@, old(self).token_stream.pos as int, final(self).token_stream.pos as int),
            (plain(old(self).token_stream.tokens@, old(self).token_stream.pos as int, final(self).token_stream.pos as int) && r is Ok) ==> basic_from(final(self).ast, old(self).ast.node_arena@.len() as int),
            invalid_after_operands(old(self).token_stream.tokens@, old(self).token_stream.pos as int) is Some ==> (r == Err::<ASTNodeId, CompilerError>(CompilerError {
                    error_type: ErrorKind::Syntax(SyntaxError::InvalidExpression),
                    span: old(self).token_stream.tokens@[invalid_after_operands(old(self).token_stream.tokens@, old(self).token_stream.pos as int)->0].span,
                }) || (r is Ok
                && leads_to_invalid(old(self).token_stream.tokens@, final(self).token_stream.pos as int, invalid_after_operands(old(self).token_stream.tokens@, old(self).token_stream.pos as int)->0))),
            expr_end(old(self).token_stream.tokens@, old(self).token_stream.pos as int, curr_precedence as int) matches Some(e) ==> r is Ok && final(self).token_stream.pos == e,
            expr_invalid(old(self).token_stream.tokens@, old(self).token_stream.pos as int, curr_precedence as int) matches Some(k) ==> r == Err::<ASTNodeId, CompilerError>(
                CompilerError {
                    error_type: ErrorKind::Syntax(SyntaxError::InvalidExpression),
                    span: old(self).token_stream.tokens@[k].span,
                },
            ),
        decreases old(self).token_stream.remaining(), 1nat,
    {
        let mut left_node_id = self.nud_hook()?;
        proof {
            let tokens = old(self).token_stream.tokens@;
            let start = old(self).token_stream.pos as int;
            if expr_end(tokens, start, curr_precedence as int) is Some {
                assert(primary_end(tokens, start) is Some);
                assert(self.token_stream.pos <= tokens.len());
            }
            if simple_expression_at(tokens, start) {
                lemma_operand_plain(tokens, start);
            }
        }
        loop
            invariant
                advanced(*old(self), *self),
                old(self).token_stream.spec_peek() matches Some(t) && can_start_expression(t.token_type),
                is_expression_id(self.ast, left_node_id),
                self.token_stream.pos > old(self).token_stream.pos,
                left_node_id.0 >= old(self).ast.node_arena@.len(),
                left_node_id.0 + 1 == self.ast.node_arena@.len(),
                (operand_ok(old(self).token_stream.tokens@, old(self).token_stream.pos as int) && operand_end(old(self).token_stream.tokens@, old(self).token_stream.pos as int)->0 < old(self).token_stream.tokens@.len() && !spec_is_terminal(old(self).token_stream.tokens@[operand_end(old(self).token_stream.tokens@, old(self).token_stream.pos as int)->0].token_type)
                    && lhs_group(old(self).token_stream.tokens@[operand_end(old(self).token_stream.tokens@, old(self).token_stream.pos as int)->0].token_type) is None) ==> self.token_stream.pos == operand_end(old(self).token_stream.tokens@, old(self).token_stream.pos as int)->0,
                ungrouped(old(self).token_stream.tokens@, old(self).token_stream.pos as int, self.token_stream.pos as int)
                    ==> precedence_respected(self.ast, old(self).ast.node_arena@.len() as int) && (binary_level(self.ast, left_node_id) matches Some(l)
                    ==> l >= curr_precedence && (binary_right_power(self.ast, left_node_id) matches Some(rp)
                    && rp <= l + 1 && stops_before(self.token_stream.spec_peek(), rp))),
                operand_parses(old(self).token_stream.tokens@, old(self).token_stream.pos as int, curr_precedence as int)
                    ==> self.token_stream.pos == operand_end(old(self).token_stream.tokens@, old(self).token_stream.pos as int)->0,
                unannotated(old(self).token_stream.tokens@, old(self).token_stream.pos as int, self.token_stream.pos as int)
                    ==> spells(self.ast, left_node_id, old(self).token_stream.tokens@.subrange(old(self).token_stream.pos as int, self.token_stream.pos as int)),
                plain(old(self).token_stream.tokens@, old(self).token_stream.pos as int, self.token_stream.pos as int)
                    ==> basic_from(self.ast, old(self).ast.node_arena@.len() as int),
                invalid_after_operands(old(self).token_stream.tokens@, old(self).token_stream.pos as int) is Some ==> leads_to_invalid(old(self).token_stream.tokens@, self.token_stream.pos as int,
                    invalid_after_operands(old(self).token_stream.tokens@, old(self).token_stream.pos as int)->0),
                simple_expression_at(old(self).token_stream.tokens@, old(self).token_stream.pos as int)
                    ==> simple_rest(old(self).token_stream.tokens@, self.token_stream.pos as int)
                    && plain(old(self).token_stream.tokens@, old(self).token_stream.pos as int, self.token_stream.pos as int),
                expr_invalid(old(self).token_stream.tokens@, old(self).token_stream.pos as int, curr_precedence as int) is Some ==> rest_invalid(old(self).token_stream.tokens@, self.token_stream.pos as int, curr_precedence as int)
                    == expr_invalid(old(self).token_stream.tokens@, old(self).token_stream.pos as int, curr_precedence as int),
                expr_end(old(self).token_stream.tokens@, old(self).token_stream.pos as int, curr_precedence as int) is Some ==> rest_end(old(self).token_stream.tokens@, self.token_stream.pos as int, curr_precedence as int)
                    == expr_end(old(self).token_stream.tokens@, old(self).token_stream.pos as int, curr_precedence as int),
            decreases self.token_stream.remaining(),
        {
            let token = match self.token_stream.peek() {
                Some(t) => t,
                None => {
                    return Ok(left_node_id);
                },
            };
            if is_terminal(&token) {
                return Ok(left_node_id);
            }
            if let Some((left_precedence, right_precedence)) = operators_with_lhs_binding_power(&token) {
                if left_precedence < curr_precedence {
                    return Ok(left_node_id);
                }
                let ghost before = *self;
                let ghost left_before = left_node_id;
                self.token_stream.next();
                let ghost after_next = *self;
                proof {
                    let tokens = old(self).token_stream.tokens@;
                    let p = before.token_stream.pos as int;
                    assert(tokens[p] == token);
                    assert(after_next.token_stream.pos == p + 1);
                }
                left_node_id = self.led_hook(&token, left_node_id, right_precedence)?;
                proof {
                    let tokens = old(self).token_stream.tokens@;
                    let start = old(self).token_stream.pos as int;
                    let p = before.token_stream.pos as int;
                    if expr_end(tokens, start, curr_precedence as int) is Some {
                        assert(rest_end(tokens, p, curr_precedence as int) is Some);
                        assert(led_end(tokens, p) is Some);
                        assert(self.token_stream.pos == led_end(tokens, p)->0);
                    }
                    if simple_expression_at(tokens, start) {
                        assert(spec_binary_operator_type(tokens[p].token_type) is Some);
                        assert(plain(tokens, start, p));
                        assert(plain(tokens, p + 1, self.token_stream.pos as int));
                        assert(plain(tokens, start, self.token_stream.pos as int));
                    }
                    if plain(tokens, start, self.token_stream.pos as int) {
                        assert(plain(tokens, start, p));
                        assert(after_next.ast == before.ast);
                        lemma_basic_compose(after_next.ast, self.ast, old(self).ast.node_arena@.len() as int);
                    }
                    if unannotated(tokens, start, self.token_stream.pos as int) {
                        assert(unannotated(tokens, start, p));
                        assert(after_next.ast == before.ast);
                        assert(tokens[p] == token);
                        assert(!(tokens[p].token_type is Dot));
                        assert(!spec_is_terminal(tokens[p].token_type));
                        assert(spells(before.ast, left_before, tokens.subrange(start, p)));
                        assert(tokens.subrange(start, p) + seq![token] + tokens.subrange(p + 1, self.token_stream.pos as int)
                            =~= tokens.subrange(start, self.token_stream.pos as int));
                    }
                    if ungrouped(tokens, start, self.token_stream.pos as int) {
                        assert(ungrouped(tokens, start, p));
                        assert(ungrouped(tokens, p + 1, self.token_stream.pos as int));
                        assert(tokens[p] == token);
                        assert(!(tokens[p].token_type is OpenParen) && !(tokens[p].token_type is OpenBracket));
                        let g = lhs_group(token.token_type)->0;
                        crate::operators::precedence::lemma_binding_power_associativity(g);
                        assert(binary_level(before.ast, left_before) matches Some(l) ==> l >= group_level(g));
                        lemma_precedence_compose(after_next.ast, self.ast, old(self).ast.node_arena@.len() as int);
                        if binary_level(self.ast, left_node_id) is Some {
                            match self.ast.node_arena@[left_node_id.0 as int].node_type {
                                ASTNodeType::BinaryOperator(n) => {
                                    crate::operators::precedence::lemma_binding_power_associativity(binary_precedence_group(n.op_type));
                                },
                                _ => {},
                            }
                        }
                    }
                }
            } else {
                return Err(SyntaxError::InvalidExpression.at(token.span));
            }
        }
    }

    /// Parses the expression at the cursor of `token_stream` into `ast`,
    /// with its nodes in scope `scope_id`. It ends at the end of the tokens
    /// or before a closing bracket or a colon.
    pub fn parse(token_stream: &mut TokenStream<'a>, ast: &mut AST, scope_id: ScopeId) -> (r: Result<ASTNodeId, CompilerError>)
        requires
            old(token_stream).wf(),
            old(ast).wf(),
        ensures
            r matches Ok(id) ==> id.0 + 1 == final(ast).node_arena@.len(),
            old(token_stream).spec_peek() is None ==> r == Err::<ASTNodeId, CompilerError>(
                CompilerError {
                    error_type: ErrorKind::Syntax(SyntaxError::ExpressionExpected),
                    span: crate::source::source_span::SourceSpan {
                        start: old(token_stream).tokens@[old(token_stream).prev as int].span.end,
                        end: crate::source::source_span::SourceLocation {
                            line_index: old(token_stream).tokens@[old(token_stream).prev as int].span.end.line_index,
                            char_index: (old(token_stream).tokens@[old(token_stream).prev as int].span.end.char_index + 1) as usize,
                        },
                    },
                },
            ),
            (operand_ok(old(token_stream).tokens@, old(token_stream).pos as int) && operand_end(old(token_stream).tokens@, old(token_stream).pos as int)->0
                < old(token_stream).tokens@.len() && !spec_is_terminal(old(token_stream).tokens@[operand_end(old(token_stream).tokens@, old(token_stream).pos as int)->0].token_type)
                && lhs_group(old(token_stream).tokens@[operand_end(old(token_stream).tokens@, old(token_stream).pos as int)->0].token_type) is None) ==> r == Err::<ASTNodeId, CompilerError>(
                CompilerError {
                    error_type: ErrorKind::Syntax(SyntaxError::InvalidExpression),
                    span: old(token_stream).tokens@[operand_end(old(token_stream).tokens@, old(token_stream).pos as int)->0].span,
                },
            ),
            final(token_stream).wf(),
            final(ast).wf(),
            final(token_stream).tokens == old(token_stream).tokens,
            final(token_stream).pos >= old(token_stream).pos,
            ast_extends(*old(ast), *final(ast)),
            nodes_in_scope(*final(ast), old(ast).node_arena@.len() as int, scope_id),
            r matches Ok(id) ==> is_expression_id(*final(ast), id) && final(token_stream).pos > old(token_stream).pos,
            r is Ok ==> (final(token_stream).spec_peek() matches Some(t) ==> spec_is_terminal(t.token_type)),
            r is Ok ==> (old(token_stream).spec_peek() matches Some(t) && can_start_expression(t.token_type)),
            final(ast).statement_root_node_ids == old(ast).statement_root_node_ids,
            (ungrouped(old(token_stream).tokens@, old(token_stream).pos as int, final(token_stream).pos as int) && r is Ok)
                ==> precedence_respected(*final(ast), old(ast).node_arena@.len() as int),
            old(token_stream).spec_peek() is None ==> r is Err,
            r matches Ok(id) ==> id.0 >= old(ast).node_arena@.len(),
            operand_parses(old(token_stream).tokens@, old(token_stream).pos as int, 0) ==> r is Ok
                && final(token_stream).pos == operand_end(old(token_stream).tokens@, old(token_stream).pos as int)->0,
            (unannotated(old(token_stream).tokens@, old(token_stream).pos as int, final(token_stream).pos as int) && r is Ok)
                ==> spells(*final(ast), r->Ok_0, old(token_stream).tokens@.subrange(old(token_stream).pos as int, final(token_stream).pos as int)),
            (plain(old(token_stream).tokens@, old(token_stream).pos as int, final(token_stream).pos as int) && r is Ok)
                ==> basic_from(*final(ast), old(ast).node_arena@.len() as int),
            invalid_after_operands(old(token_stream).tokens@, old(token_stream).pos as int) is Some ==> r == Err::<ASTNodeId, CompilerError>(
                CompilerError {
                    error_type: ErrorKind::Syntax(SyntaxError::InvalidExpression),
                    span: old(token_stream).tokens@[invalid_after_operands(old(token_stream).tokens@, old(token_stream).pos as int)->0].span,
                },
            ),
            simple_expression_at(old(token_stream).tokens@, old(token_stream).pos as int) ==> r is Ok
                && plain(old(token_stream).tokens@, old(token_stream).pos as int, final(token_stream).pos as int)
                && final(token_stream).pos == expression_end(old(token_stream).tokens@, old(token_stream).pos as int)
                && spells(*final(ast), r->Ok_0, old(token_stream).tokens@.subrange(old(token_stream).pos as int, final(token_stream).pos as int)),
            expr_end(old(token_stream).tokens@, old(token_stream).pos as int, 0) matches Some(e) ==> r is Ok && final(token_stream).pos == e,
            expr_invalid(old(token_stream).tokens@, old(token_stream).pos as int, 0) matches Some(k) ==> r == Err::<ASTNodeId, CompilerError>(
                CompilerError {
                    error_type: ErrorKind::Syntax(SyntaxError::InvalidExpression),
                    span: old(token_stream).tokens@[k].span,
                },
            ),
    {
        let mut owned = AST::new();
        std::mem::swap(&mut owned, ast);
        let mut stream = TokenStream::new(token_stream.tokens, token_stream.pos);
        std::mem::swap(&mut stream, token_stream);
        let mut parser = ExpressionParser::new(stream, owned, scope_id);
        let r = parser.parse_expression_rec(0);
        let ExpressionParser { token_stream: s, ast: a, scope_id: _ } = parser;
        *ast = a;
        *token_stream = s;
        proof {
            let tokens = old(token_stream).tokens@;
            if simple_expression_at(tokens, old(token_stream).pos as int) {
                assert(token_stream.pos <= tokens.len());
                lemma_plain_end(tokens, old(token_stream).pos as int, token_stream.pos as int);
            }
        }
        r
    }
}

} // verus!
