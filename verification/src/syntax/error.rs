use vstd::prelude::*;
use crate::error::spanned_error::{CompilerError, ErrorKind, SpannableError};
use crate::lexer::token::{Token, TokenType};
use crate::source::source_span::SourceSpan;
use crate::compiler_context::context::CompilerContext;
use crate::lexer::token::{spec_token_type_name, token_type_name};
use crate::text::{push_str_chars, string_from_chars};

verus! {

/// Errors of the parser.
#[derive(Debug, Copy, Clone, PartialEq, Eq, Structural)]
pub enum SyntaxError {
    /// A token of kind `expected` was needed; `actual` is what came, if anything.
    ExpectedToken { expected: TokenType, actual: Option<Token> },
    /// An opening parenthesis or bracket without its closing one.
    UnmatchedGroupOpening(TokenType),
    /// A line indented more than one level deeper than the line it belongs to.
    IndentTooLarge,
    UnexpectedExpression,
    /// An expression was needed but the statement ended.
    ExpressionExpected,
    /// A token that cannot stand where it does in an expression.
    InvalidExpression,
}

impl SpannableError for SyntaxError {
    fn at(self, span: SourceSpan) -> (r: CompilerError)
        ensures
            r == (CompilerError { error_type: ErrorKind::Syntax(self), span }),
    {
        CompilerError { error_type: ErrorKind::Syntax(self), span }
    }
}

/// The message of a parser error, given the interned strings.
pub open spec fn syntax_error_text(e: SyntaxError, strings: Seq<Seq<char>>) -> Seq<char> {
    match e {
        SyntaxError::ExpectedToken { expected, actual } => match actual {
            None => "Error: "@ + spec_token_type_name(expected) + " expected"@,
            Some(token) => "Error: "@ + spec_token_type_name(expected) + " expected but got '"@ + strings[token.symbol as int]
                + "'"@,
        },
        SyntaxError::UnmatchedGroupOpening(opening) => "Error: Unmatched "@ + spec_token_type_name(opening),
        SyntaxError::IndentTooLarge => "Error: Line indented too far in"@,
        SyntaxError::UnexpectedExpression => "Error: Unexpected Expression"@,
        SyntaxError::ExpressionExpected => "Error: Expression expected"@,
        SyntaxError::InvalidExpression => "Error: Invalid Expression"@,
    }
}

impl SyntaxError {
    /// The symbols the error names are interned.
    pub open spec fn within(&self, strings: Seq<Seq<char>>) -> bool {
        self matches SyntaxError::ExpectedToken { actual: Some(token), .. } ==> token.symbol < strings.len()
    }

    /// The message of the error.
    pub fn format(&self, ctx: &CompilerContext) -> (r: String)
        requires
            ctx.string_interner.wf(),
            self.within(ctx.string_interner@),
        ensures
            r@ == syntax_error_text(*self, ctx.string_interner@),
    {
        let mut out: Vec<char> = Vec::new();
        match self {
            SyntaxError::ExpectedToken { expected, actual } => {
                push_str_chars(&mut out, "Error: ");
                push_str_chars(&mut out, token_type_name(*expected));
                match actual {
                    None => {
                        push_str_chars(&mut out, " expected");
                    },
                    Some(token) => {
                        push_str_chars(&mut out, " expected but got '");
                        push_str_chars(&mut out, ctx.string_interner.get_str(token.symbol));
                        push_str_chars(&mut out, "'");
                    },
                }
            },
            SyntaxError::UnmatchedGroupOpening(opening) => {
                push_str_chars(&mut out, "Error: Unmatched ");
                push_str_chars(&mut out, token_type_name(*opening));
            },
            SyntaxError::IndentTooLarge => push_str_chars(&mut out, "Error: Line indented too far in"),
            SyntaxError::UnexpectedExpression => push_str_chars(&mut out, "Error: Unexpected Expression"),
            SyntaxError::ExpressionExpected => push_str_chars(&mut out, "Error: Expression expected"),
            SyntaxError::InvalidExpression => push_str_chars(&mut out, "Error: Invalid Expression"),
        }
        assert(out@ =~= syntax_error_text(*self, ctx.string_interner@));
        string_from_chars(&out)
    }
}

} // verus!
