use vstd::prelude::*;
use crate::lexer::TokenizedLines;
use crate::lexer::token::{Token, TokenType};
use crate::source::source_span::SourceSpan;
use crate::syntax::parser::token_stream::{TokenStream, tokens_bounded};

verus! {

/// The tokens of one non-blank line: its indentation token first.
#[derive(Debug)]
pub struct Statement {
    pub tokens: Vec<Token>,
    pub indent_size: usize,
}

/// A line can become a statement: it starts with its indentation token and
/// every token is bounded.
pub open spec fn line_shape_ok(tokens: Seq<Token>) -> bool {
    &&& tokens.len() >= 1
    &&& tokens[0].token_type is Indent
    &&& tokens_bounded(tokens)
}

/// Every token of `tokens` names one of the first `n` interned strings.
pub open spec fn symbols_below(tokens: Seq<Token>, n: nat) -> bool {
    forall|i: int| 0 <= i < tokens.len() ==> (#[trigger] tokens[i]).symbol < n
}

/// Every token of every line names one of the first `n` interned strings.
pub open spec fn lines_symbols_below(lines: Seq<Seq<Token>>, n: nat) -> bool {
    forall|i: int| 0 <= i < lines.len() ==> symbols_below(#[trigger] lines[i], n)
}

/// Every token of every statement names one of the first `n` interned strings.
pub open spec fn statements_symbols_below(statements: Seq<Statement>, n: nat) -> bool {
    forall|i: int| 0 <= i < statements.len() ==> symbols_below(#[trigger] statements[i].tokens@, n)
}

impl Statement {
    /// Index of the first token after the indentation.
    pub const INDEX_AFTER_INDENT: usize = 1;

    /// The statement's invariant: an indentation token carrying the
    /// statement's indentation level, then at least one token.
    pub open spec fn wf(&self) -> bool {
        &&& self.tokens@.len() >= 2
        &&& self.tokens@[0].token_type == TokenType::Indent(self.indent_size)
        &&& tokens_bounded(self.tokens@)
    }

    /// The kind of the first token after the indentation.
    pub fn token_after_indent_type(&self) -> (r: TokenType)
        requires
            self.wf(),
        ensures
            r == self.tokens@[1].token_type,
    {
        self.tokens[1].token_type
    }

    /// Whether the first token after the indentation is of kind `token_type`.
    pub fn token_after_indent_matches(&self, token_type: TokenType) -> (r: bool)
        requires
            self.wf(),
        ensures
            r == (self.tokens@[1].token_type == token_type),
    {
        self.tokens[1].token_type == token_type
    }

    /// The indentation token.
    pub fn indent_token(&self) -> (r: Token)
        requires
            self.wf(),
        ensures
            r == self.tokens@[0],
    {
        self.tokens[0]
    }

    /// A stream over the tokens from index `start` on.
    pub fn suffix_stream(&self, start: usize) -> (r: TokenStream<'_>)
        requires
            self.wf(),
            1 <= start <= self.tokens@.len(),
        ensures
            r.wf(),
            r.tokens@ == self.tokens@,
            r.pos == start,
            !r.curr_token_split,
    {
        TokenStream::new(self.tokens.as_slice(), start)
    }

    /// From the first token after the indentation to the end of the last.
    pub fn full_span(&self) -> (r: SourceSpan)
        requires
            self.wf(),
        ensures
            r.start == self.tokens@[1].span.start,
            r.end == self.tokens@[self.tokens@.len() - 1].span.end,
    {
        SourceSpan::new(self.tokens[1].span.start, self.tokens[self.tokens.len() - 1].span.end)
    }
}

/// The statements of a file: its non-blank lines, in order.
pub struct SourceStatements(pub Vec<Statement>);

/// The lines that hold more than their indentation token.
pub open spec fn non_blank_lines(lines: Seq<Seq<Token>>) -> Seq<Seq<Token>>
    decreases lines.len(),
{
    if lines.len() == 0 {
        Seq::empty()
    } else if lines.last().len() >= 2 {
        non_blank_lines(lines.drop_last()).push(lines.last())
    } else {
        non_blank_lines(lines.drop_last())
    }
}

impl SourceStatements {
    pub open spec fn wf(&self) -> bool {
        forall|i: int| 0 <= i < self.0@.len() ==> (#[trigger] self.0@[i]).wf()
    }

    /// The statements of tokenized lines: every line that holds more than
    /// its indentation token, with the level of that token.
    pub fn from_lines(source_lines: TokenizedLines) -> (r: Self)
        requires
            forall|i: int| 0 <= i < source_lines.0@.len() ==> line_shape_ok(#[trigger] source_lines.0@[i]@),
        ensures
            r.wf(),
            forall|n: nat| #[trigger] lines_symbols_below(source_lines.lines_view(), n) ==> statements_symbols_below(r.0@, n),
            Seq::new(r.0@.len(), |i: int| r.0@[i].tokens@) == non_blank_lines(source_lines.lines_view()),
    {
        let TokenizedLines(lines) = source_lines;
        let ghost all = Seq::new(lines@.len(), |i: int| lines@[i]@);
        let mut statements: Vec<Statement> = Vec::new();
        let mut remaining = lines;
        let mut rev: Vec<Vec<Token>> = Vec::new();
        let ghost n = remaining@.len();
        assert(n == remaining.len());
        while remaining.len() > 0
            invariant
                n <= usize::MAX,
                remaining@.len() + rev@.len() == n,
                n == all.len(),
                forall|i: int| 0 <= i < remaining@.len() ==> remaining@[i]@ == all[i],
                forall|i: int| 0 <= i < rev@.len() ==> rev@[i]@ == all[n - 1 - i],
            decreases remaining@.len(),
        {
            let line = remaining.pop().unwrap();
            rev.push(line);
        }
        let mut i: usize = 0;
        proof {
            assert(all.subrange(0, 0) =~= Seq::<Seq<Token>>::empty());
        }
        while rev.len() > 0
            invariant
                rev@.len() + i == n,
                n <= usize::MAX,
                n == all.len(),
                forall|j: int| 0 <= j < rev@.len() ==> rev@[j]@ == all[n - 1 - j],
                forall|j: int| 0 <= j < n ==> line_shape_ok(#[trigger] all[j]),
                forall|j: int| 0 <= j < statements@.len() ==> (#[trigger] statements@[j]).wf(),
                forall|j: int| 0 <= j < statements@.len() ==> exists|k: int| 0 <= k < n && (#[trigger] statements@[j]).tokens@ == all[k],
                Seq::new(statements@.len(), |j: int| statements@[j].tokens@) == non_blank_lines(all.subrange(0, i as int)),
            decreases rev@.len(),
        {
            let line = rev.pop().unwrap();
            let ghost old_st = Seq::new(statements@.len(), |j: int| statements@[j].tokens@);
            assert(line@ == all[i as int]);
            assert(all.subrange(0, i + 1).drop_last() =~= all.subrange(0, i as int));
            assert(all.subrange(0, i + 1).last() == all[i as int]);
            if line.len() >= 2 {
                let indent_size = match line[0].token_type {
                    TokenType::Indent(n) => n,
                    _ => 0,
                };
                statements.push(Statement { tokens: line, indent_size });
                assert(statements@[statements@.len() - 1].tokens@ == all[i as int]);
                assert(Seq::new(statements@.len(), |j: int| statements@[j].tokens@) =~= old_st.push(all[i as int]));
            }
            i += 1;
        }
        proof {
            assert(all.subrange(0, n as int) =~= all);
            assert(all =~= source_lines.lines_view());
            assert forall|m: nat| #[trigger] lines_symbols_below(source_lines.lines_view(), m)
                implies statements_symbols_below(statements@, m) by {
                assert forall|j: int| 0 <= j < statements@.len() implies symbols_below(#[trigger] statements@[j].tokens@, m) by {
                    let k = choose|k: int| 0 <= k < n && statements@[j].tokens@ == all[k];
                    assert(symbols_below(source_lines.lines_view()[k], m));
                }
            }
        }
        SourceStatements(statements)
    }
}

/// The tokens of a line that the tokenizer accepted can become a statement,
/// when the line's bytes are fewer than the largest index.
pub proof fn lemma_valid_line_shape(tokens: Seq<Token>, line_index: usize, s: Seq<char>, interned: Seq<Seq<char>>)
    requires
        crate::lexer::tokenizer::tokens_valid(tokens, line_index, s, interned),
        crate::text::utf8_len(s) < usize::MAX,
    ensures
        line_shape_ok(tokens),
        symbols_below(tokens, interned.len()),
{
    crate::lexer::tokenizer::lemma_run_length_bound(s, 0, crate::lexer::token::space_pred());
    crate::lexer::token::lemma_scan_lexemes(s, 0);
    let ls = crate::lexer::token::scan(s, 0)->Ok_0;
    assert forall|i: int| 0 <= i < tokens.len() implies (#[trigger] tokens[i]).span.end.char_index < usize::MAX
        && tokens[i].symbol < interned.len() by {
        if i > 0 {
            assert(crate::lexer::tokenizer::token_for_lexeme(tokens[(i - 1) + 1], ls[i - 1], line_index, s, interned));
            assert(ls[i - 1].2 <= s.len());
            crate::text::lemma_byte_offset_monotonic(s, ls[i - 1].2, s.len() as int);
            assert(s.subrange(0, s.len() as int) =~= s);
        } else {
            crate::text::lemma_byte_offset_monotonic(s, crate::lexer::token::leading_spaces(s) as int, s.len() as int);
            assert(s.subrange(0, s.len() as int) =~= s);
        }
    }
}

} // verus!
