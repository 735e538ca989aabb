pub mod error;
pub mod token;
pub mod tokenizer;

use vstd::prelude::*;
use crate::compiler_context::context::CompilerContext;
use crate::error::spanned_error::CompilerError;
use crate::lexer::tokenizer::{
    LineTokens,
    tokenize_line,
    tokens_valid,
    tokenize_line_err,
    interner_extends,
    lemma_tokens_valid_extends,
};
use crate::source::source_file::SourceFile;
use crate::text::utf8_len;
use crate::lexer::token::{leading_spaces, scan};

verus! {

/// A line tokenizes: its indentation is a whole number of levels and its
/// text is a sequence of tokens.
pub open spec fn line_lexes(s: Seq<char>) -> bool {
    leading_spaces(s) % 4 == 0 && scan(s, 0) is Ok
}

/// Every line tokenizes.
pub open spec fn all_lines_lex(lines: Seq<Seq<char>>) -> bool {
    forall|k: int| 0 <= k < lines.len() ==> line_lexes(#[trigger] lines[k])
}

/// `e` is the error of the first line of `lines` that does not tokenize,
/// `interned` being the strings interned by then.
pub open spec fn first_lex_error(e: CompilerError, lines: Seq<Seq<char>>, interned: Seq<Seq<char>>) -> bool {
    exists|k: int| 0 <= k < lines.len() && (forall|j: int| 0 <= j < k ==> line_lexes(#[trigger] lines[j]))
        && tokenize_line_err(e, k as usize, lines[k], interned)
}

/// The tokens of each line of a source file.
#[derive(Debug)]
pub struct TokenizedLines(pub Vec<LineTokens>);

/// UTF-8 bytes plus two per line: a bound on how many strings tokenizing
/// the lines can intern, and on the byte offsets of their tokens.
pub open spec fn lines_budget(lines: Seq<Seq<char>>) -> nat
    decreases lines.len(),
{
    if lines.len() == 0 {
        0
    } else {
        lines_budget(lines.drop_last()) + utf8_len(lines.last()) + 2
    }
}

impl TokenizedLines {
    /// The tokens of each line.
    pub open spec fn lines_view(&self) -> Seq<Seq<crate::lexer::token::Token>> {
        Seq::new(self.0@.len(), |i: int| self.0@[i]@)
    }

    /// Number of lines.
    pub fn line_count(&self) -> (r: usize)
        ensures
            r == self.0@.len(),
    {
        self.0.len()
    }
}

/// Tokenizes every line of a source file, stopping at the first line that
/// fails.
pub fn lexical_analysis(source_file: &SourceFile, ctx: &mut CompilerContext) -> (r: Result<TokenizedLines, CompilerError>)
    requires
        old(ctx).wf(),
        old(ctx).string_interner@.len() + lines_budget(source_file.lines_view()) < u32::MAX,
    ensures
        final(ctx).wf(),
        final(ctx).type_arena == old(ctx).type_arena,
        final(ctx).symbol_table == old(ctx).symbol_table,
        interner_extends(old(ctx).string_interner@, final(ctx).string_interner@),
        match r {
            Ok(lines) => {
                &&& lines.0@.len() == source_file.lines_view().len()
                &&& forall|i: int| 0 <= i < lines.0@.len() ==> tokens_valid(
                    #[trigger] lines.0@[i]@,
                    i as usize,
                    source_file.lines_view()[i],
                    final(ctx).string_interner@,
                )
            },
            Err(e) => exists|k: int| 0 <= k < source_file.lines_view().len() && tokenize_line_err(
                e,
                k as usize,
                source_file.lines_view()[k],
                final(ctx).string_interner@,
            ),
        },
        r is Ok <==> all_lines_lex(source_file.lines_view()),
        r matches Err(e) ==> first_lex_error(e, source_file.lines_view(), final(ctx).string_interner@),
{
    let mut lines: Vec<LineTokens> = Vec::new();
    let n = source_file.line_count();
    let mut i: usize = 0;
    let ghost all = source_file.lines_view();
    assert(all.subrange(0, n as int) =~= all);
    while i < n
        invariant
            n == all.len(),
            all == source_file.lines_view(),
            i <= n,
            ctx.wf(),
            ctx.type_arena == old(ctx).type_arena,
            ctx.symbol_table == old(ctx).symbol_table,
            interner_extends(old(ctx).string_interner@, ctx.string_interner@),
            ctx.string_interner@.len() + lines_budget(all.subrange(i as int, n as int)) <= old(ctx).string_interner@.len() + lines_budget(all),
            old(ctx).string_interner@.len() + lines_budget(all) < u32::MAX,
            lines@.len() == i,
            forall|j: int| 0 <= j < i ==> tokens_valid(#[trigger] lines@[j]@, j as usize, all[j], ctx.string_interner@),
        decreases n - i,
    {
        proof {
            lemma_budget_first(all.subrange(i as int, n as int));
            crate::text::lemma_utf8_at_least_chars(all[i as int]);
            assert(all.subrange(i as int, n as int)[0] == all[i as int]);
            assert(all.subrange(i as int, n as int).drop_first() =~= all.subrange(i + 1, n as int));
        }
        let line = source_file.get_line(i);
        let ghost before = ctx.string_interner@;
        match tokenize_line(i, line, ctx) {
            Ok(tokens) => {
                proof {
                    assert forall|j: int| 0 <= j < i implies tokens_valid(#[trigger] lines@[j]@, j as usize, all[j], ctx.string_interner@) by {
                        lemma_tokens_valid_extends(lines@[j]@, j as usize, all[j], before, ctx.string_interner@);
                    }
                }
                lines.push(tokens);
                i += 1;
            },
            Err(e) => {
                assert(tokenize_line_err(e, i as usize, all[i as int], ctx.string_interner@));
                proof {
                    assert forall|j: int| 0 <= j < i implies line_lexes(#[trigger] all[j]) by {
                        assert(tokens_valid(lines@[j]@, j as usize, all[j], ctx.string_interner@));
                    }
                    assert(!line_lexes(all[i as int]));
                }
                return Err(e);
            },
        }
    }
    proof {
        assert forall|k: int| 0 <= k < all.len() implies line_lexes(#[trigger] all[k]) by {
            assert(tokens_valid(lines@[k]@, k as usize, all[k], ctx.string_interner@));
        }
    }
    Ok(TokenizedLines(lines))
}

/// The budget of a list of lines is that of its first line plus that of the
/// rest.
pub proof fn lemma_budget_first(lines: Seq<Seq<char>>)
    requires
        lines.len() > 0,
    ensures
        lines_budget(lines) == utf8_len(lines[0]) + 2 + lines_budget(lines.drop_first()),
    decreases lines.len(),
{
    if lines.len() > 1 {
        lemma_budget_first(lines.drop_last());
        assert(lines.drop_last().drop_first() =~= lines.drop_first().drop_last());
        assert(lines.drop_last()[0] == lines[0]);
        assert(lines.drop_first().last() == lines.last());
        assert(lines_budget(lines.drop_first()) == lines_budget(lines.drop_first().drop_last()) + utf8_len(lines.drop_first().last()) + 2);
    } else {
        assert(lines.drop_first().len() == 0);
        assert(lines.drop_last().len() == 0);
        assert(lines_budget(lines.drop_last()) == 0);
        assert(lines_budget(lines.drop_first()) == 0);
        assert(lines.last() == lines[0]);
    }
}

} // verus!
