use vstd::prelude::*;
use crate::error::spanned_error::{CompilerError, ErrorKind, SpannableError};
use crate::source::source_span::SourceSpan;
use crate::compiler_context::context::CompilerContext;
use crate::text::{decimal, push_decimal, push_str_chars, string_from_chars};

verus! {

/// Errors of the tokenizer.
#[derive(Debug, Copy, Clone, PartialEq, Eq, Structural)]
pub enum LexerError {
    /// No token starts at this text; the symbol of the offending text.
    InvalidToken(usize),
    /// The indentation of a line, in spaces, is not a multiple of the indent size.
    UnalignedIndent(usize),
}

impl SpannableError for LexerError {
    fn at(self, span: SourceSpan) -> (r: CompilerError)
        ensures
            r == (CompilerError { error_type: ErrorKind::Lexer(self), span }),
    {
        CompilerError { error_type: ErrorKind::Lexer(self), span }
    }
}

/// The message of a tokenizer error, given the interned strings.
pub open spec fn lexer_error_text(e: LexerError, strings: Seq<Seq<char>>) -> Seq<char> {
    match e {
        LexerError::InvalidToken(symbol) => "Error: Unrecognized token: "@ + strings[symbol as int],
        LexerError::UnalignedIndent(n) => "Error: Unaligned Indent: Indent size "@ + decimal(n as nat)
            + " is not a multiple of "@ + decimal(crate::lexer::token::INDENT_SIZE as nat),
    }
}

impl LexerError {
    /// The symbols the error names are interned.
    pub open spec fn within(&self, strings: Seq<Seq<char>>) -> bool {
        self matches LexerError::InvalidToken(symbol) ==> symbol < strings.len()
    }

    /// The message of the error.
    pub fn format(&self, ctx: &CompilerContext) -> (r: String)
        requires
            ctx.string_interner.wf(),
            self.within(ctx.string_interner@),
        ensures
            r@ == lexer_error_text(*self, ctx.string_interner@),
    {
        let mut out: Vec<char> = Vec::new();
        match self {
            LexerError::InvalidToken(symbol) => {
                push_str_chars(&mut out, "Error: Unrecognized token: ");
                push_str_chars(&mut out, ctx.string_interner.get_str(*symbol));
            },
            LexerError::UnalignedIndent(n) => {
                push_str_chars(&mut out, "Error: Unaligned Indent: Indent size ");
                push_decimal(&mut out, *n);
                push_str_chars(&mut out, " is not a multiple of ");
                push_decimal(&mut out, crate::lexer::token::INDENT_SIZE);
            },
        }
        assert(out@ =~= lexer_error_text(*self, ctx.string_interner@));
        string_from_chars(&out)
    }
}

} // verus!
