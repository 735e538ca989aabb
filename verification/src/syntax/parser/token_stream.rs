use vstd::prelude::*;
use crate::error::spanned_error::{CompilerError, ErrorKind, SpannableError};
use crate::lexer::token::{Token, TokenType};
use crate::source::source_span::SourceSpan;
use crate::syntax::error::SyntaxError;

verus! {

/// Every token ends before the largest character index, so the position
/// just after any token exists.
pub open spec fn tokens_bounded(tokens: Seq<Token>) -> bool {
    forall|i: int| 0 <= i < tokens.len() ==> (#[trigger] tokens[i]).span.end.char_index < usize::MAX
}

/// A cursor over the tokens of a statement, from a given start on. It
/// remembers the token before the cursor, and whether the token at the
/// cursor (a `>>`) has been half consumed as one `>`.
pub struct TokenStream<'a> {
    pub tokens: &'a [Token],
    pub pos: usize,
    pub prev: usize,
    pub curr_token_split: bool,
}

impl<'a> TokenStream<'a> {
    /// The stream's invariant: a token before the cursor, the cursor within
    /// the tokens, and every token bounded.
    pub open spec fn wf(&self) -> bool {
        &&& 1 <= self.pos <= self.tokens@.len()
        &&& self.prev == self.pos - 1
        &&& tokens_bounded(self.tokens@)
    }

    /// Number of tokens not yet consumed.
    pub open spec fn remaining(&self) -> nat {
        (self.tokens@.len() - self.pos) as nat
    }

    /// The token at the cursor, if any.
    pub open spec fn spec_peek(&self) -> Option<Token> {
        if self.pos < self.tokens@.len() {
            Some(self.tokens@[self.pos as int])
        } else {
            None
        }
    }

    /// The stream after one step of `next`: the cursor moves over the token
    /// at it, if there is one, and no token is left half consumed.
    pub open spec fn after_next(self) -> TokenStream<'a> {
        if self.pos < self.tokens@.len() {
            TokenStream { tokens: self.tokens, pos: (self.pos + 1) as usize, prev: self.pos, curr_token_split: false }
        } else {
            TokenStream { curr_token_split: false, ..self }
        }
    }

    /// The stream after `k` steps of `next`.
    pub open spec fn after_nexts(self, k: nat) -> TokenStream<'a>
        decreases k,
    {
        if k == 0 {
            self
        } else {
            self.after_nexts((k - 1) as nat).after_next()
        }
    }

    /// A stream over `tokens` whose cursor stands at `start`; the token
    /// before it is the one at `start - 1`.
    pub fn new(tokens: &'a [Token], start: usize) -> (r: Self)
        requires
            1 <= start <= tokens@.len(),
            tokens_bounded(tokens@),
        ensures
            r.wf(),
            r.tokens@ == tokens@,
            r.pos == start,
            !r.curr_token_split,
    {
        Self { tokens, pos: start, prev: start - 1, curr_token_split: false }
    }

    /// The token at the cursor, if any.
    pub fn peek(&self) -> (r: Option<Token>)
        requires
            self.wf(),
        ensures
            r == self.spec_peek(),
    {
        if self.pos < self.tokens.len() {
            Some(self.tokens[self.pos])
        } else {
            None
        }
    }

    /// Whether no token is left.
    pub fn empty(&self) -> (r: bool)
        requires
            self.wf(),
        ensures
            r == (self.spec_peek() is None),
    {
        self.pos >= self.tokens.len()
    }

    /// The span of the token before the cursor.
    pub fn prev_span(&self) -> (r: SourceSpan)
        requires
            self.wf(),
        ensures
            r == self.tokens@[self.prev as int].span,
    {
        self.tokens[self.prev].span
    }

    /// The one-character span just after the token before the cursor.
    pub fn end_span(&self) -> (r: SourceSpan)
        requires
            self.wf(),
        ensures
            r.start == self.tokens@[self.prev as int].span.end,
            r.end.line_index == r.start.line_index,
            r.end.char_index == r.start.char_index + 1,
    {
        let span = self.prev_span();
        SourceSpan::new(span.end, span.end.shift_right())
    }

    /// Marks the token at the cursor as half consumed.
    pub fn split_curr_token(&mut self)
        ensures
            final(self).tokens == old(self).tokens,
            final(self).pos == old(self).pos,
            final(self).prev == old(self).prev,
            final(self).curr_token_split,
    {
        self.curr_token_split = true;
    }

    pub fn is_curr_token_split(&self) -> (r: bool)
        ensures
            r == self.curr_token_split,
    {
        self.curr_token_split
    }

    /// Consumes and returns the token at the cursor, if any.
    pub fn next(&mut self) -> (r: Option<Token>)
        requires
            old(self).wf(),
        ensures
            final(self).wf(),
            final(self).tokens == old(self).tokens,
            r == old(self).spec_peek(),
            !final(self).curr_token_split,
            r is Some ==> final(self).pos == old(self).pos + 1,
            r is None ==> final(self).pos == old(self).pos,
            *final(self) == old(self).after_next(),
    {
        self.curr_token_split = false;
        if self.pos < self.tokens.len() {
            let token = self.tokens[self.pos];
            self.prev = self.pos;
            self.pos = self.pos + 1;
            Some(token)
        } else {
            None
        }
    }

    /// Consumes the next token, which must be of kind `expected`.
    pub fn expect_next_token(&mut self, expected: TokenType) -> (r: Result<Token, CompilerError>)
        requires
            old(self).wf(),
        ensures
            !final(self).curr_token_split,
            final(self).wf(),
            final(self).tokens == old(self).tokens,
            match old(self).spec_peek() {
                None => final(self).pos == old(self).pos && r == Err::<Token, CompilerError>(
                    CompilerError {
                        error_type: ErrorKind::Syntax(SyntaxError::ExpectedToken { expected, actual: None }),
                        span: SourceSpan {
                            start: old(self).tokens@[old(self).prev as int].span.end,
                            end: crate::source::source_span::SourceLocation {
                                line_index: old(self).tokens@[old(self).prev as int].span.end.line_index,
                                char_index: (old(self).tokens@[old(self).prev as int].span.end.char_index + 1) as usize,
                            },
                        },
                    },
                ),
                Some(t) => final(self).pos == old(self).pos + 1 && if t.token_type == expected {
                    r == Ok::<Token, CompilerError>(t)
                } else {
                    r == Err::<Token, CompilerError>(
                        CompilerError {
                            error_type: ErrorKind::Syntax(SyntaxError::ExpectedToken { expected, actual: Some(t) }),
                            span: t.span,
                        },
                    )
                },
            },
    {
        match self.next() {
            None => Err(SyntaxError::ExpectedToken { expected, actual: None }.at(self.end_span())),
            Some(token) => {
                if token.token_type == expected {
                    Ok(token)
                } else {
                    Err(SyntaxError::ExpectedToken { expected, actual: Some(token) }.at(token.span))
                }
            },
        }
    }

    /// Consumes the next token, which must be an identifier.
    pub fn expect_next_identifier(&mut self) -> (r: Result<Token, CompilerError>)
        requires
            old(self).wf(),
        ensures
            !final(self).curr_token_split,
            final(self).wf(),
            final(self).tokens == old(self).tokens,
            old(self).spec_peek() is None ==> final(self).pos == old(self).pos && r is Err,
            old(self).spec_peek() is Some ==> final(self).pos == old(self).pos + 1,
            r matches Ok(t) ==> old(self).spec_peek() == Some(t) && t.token_type is Identifier,
            old(self).spec_peek() matches Some(t) ==> (t.token_type is Identifier <==> r == Ok::<Token, CompilerError>(t)),
            r matches Err(e) ==> e.error_type == ErrorKind::Syntax(
                SyntaxError::ExpectedToken { expected: TokenType::Identifier, actual: old(self).spec_peek() },
            ),
    {
        self.expect_next_token(TokenType::Identifier)
    }

    /// Whether the token at the cursor is of kind `token_type`.
    pub fn peek_matches(&self, token_type: TokenType) -> (r: bool)
        requires
            self.wf(),
        ensures
            r == (self.spec_peek() matches Some(t) && t.token_type == token_type),
    {
        match self.peek() {
            Some(t) => t.token_type == token_type,
            None => false,
        }
    }
}


/// Reading a stream token by token gives its tokens in order: after `k`
/// calls of `next` on a well-formed stream, the cursor has moved over
/// `k` tokens (or to the end, if fewer were left), and the token at the
/// cursor is the one `k` places after where it started.
pub proof fn lemma_next_reads_in_order<'a>(s: TokenStream<'a>, k: nat)
    requires
        s.wf(),
        s.tokens@.len() <= usize::MAX,
    ensures
        s.after_nexts(k).wf(),
        s.after_nexts(k).tokens == s.tokens,
        s.after_nexts(k).pos == (if s.pos + k <= s.tokens@.len() { s.pos + k } else { s.tokens@.len() as int }),
        s.pos + k < s.tokens@.len() ==> s.after_nexts(k).spec_peek() == Some(s.tokens@[s.pos + k]),
        s.pos + k >= s.tokens@.len() ==> s.after_nexts(k).spec_peek() is None,
    decreases k,
{
    if k > 0 {
        lemma_next_reads_in_order(s, (k - 1) as nat);
    }
}

} // verus!
