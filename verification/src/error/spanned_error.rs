use vstd::prelude::*;
use crate::lexer::error::LexerError;
use crate::syntax::error::SyntaxError;
use crate::semantic::error::SemanticError;
use crate::source::source_span::{SourceSpan, span_format};
use crate::source::source_file::SourceFile;
use crate::compiler_context::context::CompilerContext;
use crate::lexer::error::lexer_error_text;
use crate::syntax::error::syntax_error_text;
use crate::semantic::error::semantic_error_text;
use crate::text::{push_str_chars, string_from_chars};

verus! {

/// The kind of a compiler error, by phase.
#[derive(Debug)]
pub enum ErrorKind {
    Lexer(LexerError),
    Syntax(SyntaxError),
    Semantic(SemanticError),
}

/// An error together with the source text it is about.
#[derive(Debug)]
pub struct CompilerError {
    pub error_type: ErrorKind,
    pub span: SourceSpan,
}

/// Errors that can be attached to a source span.
pub trait SpannableError: Sized {
    fn at(self, span: SourceSpan) -> (r: CompilerError);
}

/// The message of an error of any phase.
pub open spec fn error_kind_text(kind: ErrorKind, ctx: CompilerContext) -> Seq<char> {
    match kind {
        ErrorKind::Lexer(e) => lexer_error_text(e, ctx.string_interner@),
        ErrorKind::Syntax(e) => syntax_error_text(e, ctx.string_interner@),
        ErrorKind::Semantic(e) => semantic_error_text(e, ctx),
    }
}

impl ErrorKind {
    /// The symbols and types the error names are those of the context.
    pub open spec fn within(&self, ctx: CompilerContext) -> bool {
        match *self {
            ErrorKind::Lexer(e) => e.within(ctx.string_interner@),
            ErrorKind::Syntax(e) => e.within(ctx.string_interner@),
            ErrorKind::Semantic(e) => e.within(ctx),
        }
    }

    /// Whether the symbols and types the error names are those of the
    /// context.
    pub fn is_within(&self, ctx: &CompilerContext) -> (r: bool)
        ensures
            r == self.within(*ctx),
    {
        let strings = ctx.string_interner.len();
        let types = ctx.type_arena.type_count();
        match *self {
            ErrorKind::Lexer(LexerError::InvalidToken(symbol)) => symbol < strings,
            ErrorKind::Lexer(_) => true,
            ErrorKind::Syntax(SyntaxError::ExpectedToken { actual: Some(token), .. }) => token.symbol < strings,
            ErrorKind::Syntax(_) => true,
            ErrorKind::Semantic(e) => match e {
                SemanticError::MismatchedUnaryOperatorTypes(_, t) => t.0 < types,
                SemanticError::MismatchedBinaryOperatorTypes(_, l, r) => l.0 < types && r.0 < types,
                SemanticError::UndefinedVariable(name) => name < strings,
                SemanticError::DuplicateParameterName(name) => name < strings,
                SemanticError::DuplicateFunctionName(name) => name < strings,
                SemanticError::MismatchedTypes { expected, actual } => expected.0 < types && actual.0 < types,
                SemanticError::IncorrectReturnType { expected, actual } => expected.0 < types && actual.0 < types,
                _ => true,
            },
        }
    }

    /// The message of the error.
    pub fn format(&self, ctx: &CompilerContext) -> (r: String)
        requires
            ctx.wf(),
            self.within(*ctx),
        ensures
            r@ == error_kind_text(*self, *ctx),
    {
        match self {
            ErrorKind::Lexer(e) => e.format(ctx),
            ErrorKind::Syntax(e) => e.format(ctx),
            ErrorKind::Semantic(e) => e.format(ctx),
        }
    }
}

impl CompilerError {
    /// The error's message, then its span shown in the source file.
    pub fn format(&self, source_file: &SourceFile, ctx: &CompilerContext) -> (r: String)
        requires
            ctx.wf(),
            self.error_type.within(*ctx),
            self.span.fits(source_file.lines_view()),
        ensures
            r@ == error_kind_text(self.error_type, *ctx) + "\n"@ + span_format(
                self.span,
                source_file.path@,
                source_file.lines_view(),
            ),
    {
        let mut out: Vec<char> = Vec::new();
        push_str_chars(&mut out, self.error_type.format(ctx).as_str());
        push_str_chars(&mut out, "\n");
        push_str_chars(&mut out, self.span.format(source_file).as_str());
        assert(out@ =~= error_kind_text(self.error_type, *ctx) + "\n"@ + span_format(
            self.span,
            source_file.path@,
            source_file.lines_view(),
        ));
        string_from_chars(&out)
    }
}

} // verus!
