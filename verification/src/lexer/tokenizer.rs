use vstd::prelude::*;
use crate::compiler_context::context::CompilerContext;
use crate::compiler_context::global_string_interner::{
    GlobalStringInterner,
    intern_one,
    lemma_intern_one_extends,
};
use crate::error::spanned_error::{CompilerError, ErrorKind, SpannableError};
use crate::lexer::error::LexerError;
use crate::lexer::token::{
    Token,
    TokenType,
    INDENT_SIZE,
    run_length,
    skip_blanks,
    lemma_skip_blanks,
    keyword_or_identifier,
    operator3,
    operator2,
    operator1,
    token_at,
    scan,
    leading_spaces,
    ident_pred,
    digit_pred,
    string_body_pred,
    space_pred,
};
use crate::source::source_span::{SourceLocation, SourceSpan};
use crate::text::{byte_offset, byte_offsets, lemma_utf8_at_least_chars, str_to_chars, utf8_len};

verus! {

pub type LineTokens = Vec<Token>;

/// The interner contents after interning each text in turn.
pub open spec fn intern_all(contents: Seq<Seq<char>>, texts: Seq<Seq<char>>) -> Seq<Seq<char>>
    decreases texts.len(),
{
    if texts.len() == 0 {
        contents
    } else {
        intern_one(intern_all(contents, texts.drop_last()), texts.last())
    }
}

/// The source texts of a sequence of lexemes.
pub open spec fn lexeme_texts(s: Seq<char>, lexemes: Seq<(TokenType, int, int)>) -> Seq<Seq<char>> {
    lexemes.map_values(|l: (TokenType, int, int)| s.subrange(l.1, l.2))
}

/// The span of the characters `start..end` of line `line_index`, whose text
/// is `s`: from the byte offset of the first to that of the end, in UTF-8.
pub open spec fn line_span(line_index: usize, s: Seq<char>, start: int, end: int) -> SourceSpan {
    SourceSpan {
        start: SourceLocation { line_index, char_index: byte_offset(s, start) as usize },
        end: SourceLocation { line_index, char_index: byte_offset(s, end) as usize },
    }
}

/// `token` stands for the lexeme `l` of line `line_index` whose text is `s`:
/// same kind, same place, and its symbol names the lexeme's text.
pub open spec fn token_for_lexeme(
    token: Token,
    l: (TokenType, int, int),
    line_index: usize,
    s: Seq<char>,
    interned: Seq<Seq<char>>,
) -> bool {
    &&& token.token_type == l.0
    &&& token.span == line_span(line_index, s, l.1, l.2)
    &&& token.symbol < interned.len()
    &&& interned[token.symbol as int] == s.subrange(l.1, l.2)
}

/// The indentation token of a line whose text is `s`.
pub open spec fn indent_token_ok(token: Token, line_index: usize, s: Seq<char>, interned: Seq<Seq<char>>) -> bool {
    let n = leading_spaces(s);
    &&& token.token_type == TokenType::Indent((n / 4) as usize)
    &&& token.span == line_span(line_index, s, 0, n as int)
    &&& token.symbol < interned.len()
    &&& interned[token.symbol as int] == s.subrange(0, n as int)
}

/// The whole result of tokenizing line `line_index` whose text is `s`, with
/// the interner going from `before` to `after`.
pub open spec fn tokenize_line_ok(
    tokens: Seq<Token>,
    line_index: usize,
    s: Seq<char>,
    before: Seq<Seq<char>>,
    after: Seq<Seq<char>>,
) -> bool {
    let n = leading_spaces(s);
    &&& n % 4 == 0
    &&& scan(s, 0) is Ok
    &&& tokens.len() == scan(s, 0)->Ok_0.len() + 1
    &&& indent_token_ok(tokens[0], line_index, s, after)
    &&& forall|i: int| 0 <= i < scan(s, 0)->Ok_0.len()
        ==> token_for_lexeme(#[trigger] tokens[i + 1], scan(s, 0)->Ok_0[i], line_index, s, after)
    &&& after == intern_all(before, seq![s.subrange(0, n as int)] + lexeme_texts(s, scan(s, 0)->Ok_0))
}

/// The error of tokenizing line `line_index` whose text is `s`: a misaligned
/// indentation, or else the first place where no token starts.
pub open spec fn tokenize_line_err(
    e: CompilerError,
    line_index: usize,
    s: Seq<char>,
    after: Seq<Seq<char>>,
) -> bool {
    let n = leading_spaces(s);
    if n % 4 != 0 {
        e == (CompilerError {
            error_type: ErrorKind::Lexer(LexerError::UnalignedIndent(n as usize)),
            span: line_span(line_index, s, 0, n as int),
        })
    } else {
        &&& scan(s, 0) is Err
        &&& {
            let p = scan(s, 0)->Err_0;
            &&& 0 <= p < s.len()
            &&& e.span == line_span(line_index, s, p, p + 1)
            &&& e.error_type matches ErrorKind::Lexer(LexerError::InvalidToken(sym))
            &&& sym < after.len()
            &&& after[sym as int] == s.subrange(p, p + 1)
        }
    }
}

/// The tokens of line `line_index` (text `s`) are exactly the lexemes of
/// the line after its indentation token, each symbol naming its text in
/// `interned`.
pub open spec fn tokens_valid(tokens: Seq<Token>, line_index: usize, s: Seq<char>, interned: Seq<Seq<char>>) -> bool {
    let n = leading_spaces(s);
    &&& n % 4 == 0
    &&& scan(s, 0) is Ok
    &&& tokens.len() == scan(s, 0)->Ok_0.len() + 1
    &&& indent_token_ok(tokens[0], line_index, s, interned)
    &&& forall|i: int| 0 <= i < scan(s, 0)->Ok_0.len()
        ==> token_for_lexeme(#[trigger] tokens[i + 1], scan(s, 0)->Ok_0[i], line_index, s, interned)
}

/// What tokens state of their text stays true while the interner grows.
pub proof fn lemma_tokens_valid_extends(tokens: Seq<Token>, line_index: usize, s: Seq<char>, before: Seq<Seq<char>>, after: Seq<Seq<char>>)
    requires
        tokens_valid(tokens, line_index, s, before),
        interner_extends(before, after),
    ensures
        tokens_valid(tokens, line_index, s, after),
{
    assert forall|i: int| 0 <= i < scan(s, 0)->Ok_0.len() implies token_for_lexeme(#[trigger] tokens[i + 1], scan(s, 0)->Ok_0[i], line_index, s, after) by {
        assert(token_for_lexeme(tokens[i + 1], scan(s, 0)->Ok_0[i], line_index, s, before));
    }
}

/// Interning never forgets nor moves a string.
pub open spec fn interner_extends(before: Seq<Seq<char>>, after: Seq<Seq<char>>) -> bool {
    &&& before.len() <= after.len()
    &&& forall|i: int| 0 <= i < before.len() ==> after[i] == before[i]
}

/// The classes of characters that form runs.
enum CharClass {
    Ident,
    Digit,
    StringBody,
    Space,
}

spec fn class_pred(k: CharClass) -> spec_fn(char) -> bool {
    match k {
        CharClass::Ident => ident_pred(),
        CharClass::Digit => digit_pred(),
        CharClass::StringBody => string_body_pred(),
        CharClass::Space => space_pred(),
    }
}

fn in_class(k: &CharClass, c: char) -> (r: bool)
    ensures
        r == class_pred(*k)(c),
{
    match k {
        CharClass::Ident => ('a' <= c && c <= 'z') || ('A' <= c && c <= 'Z') || c == '_' || ('0' <= c && c
            <= '9'),
        CharClass::Digit => '0' <= c && c <= '9',
        CharClass::StringBody => c != '"',
        CharClass::Space => c == ' ',
    }
}

/// A run never extends past the end of the text.
pub proof fn lemma_run_length_bound(s: Seq<char>, pos: int, p: spec_fn(char) -> bool)
    requires
        0 <= pos <= s.len(),
    ensures
        pos + run_length(s, pos, p) <= s.len(),
        forall|j: int| pos <= j < pos + run_length(s, pos, p) ==> p(s[j]),
        pos + run_length(s, pos, p) < s.len() ==> !p(s[pos + run_length(s, pos, p)]),
    decreases s.len() - pos,
{
    if pos < s.len() && p(s[pos]) {
        lemma_run_length_bound(s, pos + 1, p);
    }
}

fn run_exec(chars: &Vec<char>, pos: usize, k: CharClass) -> (r: usize)
    requires
        pos <= chars@.len(),
    ensures
        r == run_length(chars@, pos as int, class_pred(k)),
        pos + r <= chars@.len(),
{
    let n = chars.len();
    let mut i = pos;
    while i < n && in_class(&k, chars[i])
        invariant
            pos <= i <= n,
            n == chars@.len(),
            run_length(chars@, pos as int, class_pred(k)) == (i - pos) + run_length(
                chars@,
                i as int,
                class_pred(k),
            ),
        decreases n - i,
    {
        i += 1;
    }
    i - pos
}

fn skip_blanks_exec(chars: &Vec<char>, pos: usize) -> (r: usize)
    requires
        pos <= chars@.len(),
    ensures
        r == skip_blanks(chars@, pos as int),
        pos <= r <= chars@.len(),
{
    let n = chars.len();
    let mut i = pos;
    while i < n && (chars[i] == ' ' || chars[i] == '\t' || chars[i] == '\r')
        invariant
            pos <= i <= n,
            n == chars@.len(),
            skip_blanks(chars@, i as int) == skip_blanks(chars@, pos as int),
        decreases n - i,
    {
        i += 1;
    }
    i
}

fn chars_equal_str(chars: &Vec<char>, start: usize, end: usize, lit: &str) -> (r: bool)
    requires
        start <= end <= chars@.len(),
    ensures
        r == (chars@.subrange(start as int, end as int) == lit@),
{
    let m = lit.unicode_len();
    if end - start != m {
        return false;
    }
    let mut i: usize = 0;
    while i < m
        invariant
            start <= end <= chars@.len(),
            end - start == m,
            m == lit@.len(),
            i <= m,
            forall|j: int| 0 <= j < i ==> chars@[start + j] == lit@[j],
        decreases m - i,
    {
        if chars[start + i] != lit.get_char(i) {
            assert(chars@.subrange(start as int, end as int)[i as int] != lit@[i as int]);
            return false;
        }
        i += 1;
    }
    assert(chars@.subrange(start as int, end as int) =~= lit@);
    true
}

fn keyword_or_identifier_exec(chars: &Vec<char>, start: usize, end: usize) -> (r: TokenType)
    requires
        start <= end <= chars@.len(),
    ensures
        r == keyword_or_identifier(chars@.subrange(start as int, end as int)),
{
    if chars_equal_str(chars, start, end, "fn") {
        TokenType::Fn
    } else if chars_equal_str(chars, start, end, "if") {
        TokenType::If
    } else if chars_equal_str(chars, start, end, "elif") {
        TokenType::Elif
    } else if chars_equal_str(chars, start, end, "else") {
        TokenType::Else
    } else if chars_equal_str(chars, start, end, "while") {
        TokenType::While
    } else if chars_equal_str(chars, start, end, "for") {
        TokenType::For
    } else if chars_equal_str(chars, start, end, "in") {
        TokenType::In
    } else if chars_equal_str(chars, start, end, "return") {
        TokenType::Return
    } else {
        TokenType::Identifier
    }
}

fn operator3_exec(a: char, b: char, c: char) -> (r: Option<TokenType>)
    ensures
        r == operator3(a, b, c),
{
    if a == '<' && b == '<' && c == '=' {
        Some(TokenType::DoubleLeftArrowEquals)
    } else if a == '>' && b == '>' && c == '=' {
        Some(TokenType::DoubleRightArrowEquals)
    } else {
        None
    }
}

fn operator2_exec(a: char, b: char) -> (r: Option<TokenType>)
    ensures
        r == operator2(a, b),
{
    if b == '=' {
        if a == '+' {
            Some(TokenType::PlusEquals)
        } else if a == '-' {
            Some(TokenType::MinusEquals)
        } else if a == '*' {
            Some(TokenType::StarEquals)
        } else if a == '/' {
            Some(TokenType::SlashEquals)
        } else if a == '%' {
            Some(TokenType::PercentEquals)
        } else if a == '&' {
            Some(TokenType::AmpersandEquals)
        } else if a == '^' {
            Some(TokenType::CaretEquals)
        } else if a == '|' {
            Some(TokenType::PipeEquals)
        } else if a == '=' {
            Some(TokenType::DoubleEquals)
        } else if a == '!' {
            Some(TokenType::ExclamationEquals)
        } else if a == '<' {
            Some(TokenType::LessEquals)
        } else if a == '>' {
            Some(TokenType::GreaterEquals)
        } else {
            None
        }
    } else if a == '+' && b == '+' {
        Some(TokenType::PlusPlus)
    } else if a == '-' && b == '-' {
        Some(TokenType::MinusMinus)
    } else if a == '&' && b == '&' {
        Some(TokenType::DoubleAmpersand)
    } else if a == '|' && b == '|' {
        Some(TokenType::DoublePipe)
    } else if a == '<' && b == '<' {
        Some(TokenType::DoubleLeftArrow)
    } else if a == '>' && b == '>' {
        Some(TokenType::DoubleRightArrow)
    } else if a == '-' && b == '>' {
        Some(TokenType::RightArrow)
    } else {
        None
    }
}

fn operator1_exec(a: char) -> (r: Option<TokenType>)
    ensures
        r == operator1(a),
{
    if a == '=' {
        Some(TokenType::Equals)
    } else if a == '+' {
        Some(TokenType::Plus)
    } else if a == '-' {
        Some(TokenType::Minus)
    } else if a == '*' {
        Some(TokenType::Star)
    } else if a == '/' {
        Some(TokenType::Slash)
    } else if a == '%' {
        Some(TokenType::Percent)
    } else if a == '&' {
        Some(TokenType::Ampersand)
    } else if a == '|' {
        Some(TokenType::Pipe)
    } else if a == '^' {
        Some(TokenType::Caret)
    } else if a == '~' {
        Some(TokenType::Tilde)
    } else if a == '!' {
        Some(TokenType::Exclamation)
    } else if a == '<' {
        Some(TokenType::Less)
    } else if a == '>' {
        Some(TokenType::Greater)
    } else if a == '(' {
        Some(TokenType::OpenParen)
    } else if a == ')' {
        Some(TokenType::CloseParen)
    } else if a == '[' {
        Some(TokenType::OpenBracket)
    } else if a == ']' {
        Some(TokenType::CloseBracket)
    } else if a == '.' {
        Some(TokenType::Dot)
    } else if a == ',' {
        Some(TokenType::Comma)
    } else if a == ':' {
        Some(TokenType::Colon)
    } else {
        None
    }
}

/// A token that starts somewhere has at least one character and ends within
/// the text.
pub proof fn lemma_token_at_bounds(s: Seq<char>, pos: int)
    requires
        0 <= pos < s.len(),
    ensures
        token_at(s, pos) matches Some((t, n)) ==> n >= 1 && pos + n <= s.len(),
{
    lemma_run_length_bound(s, pos, ident_pred());
    lemma_run_length_bound(s, pos, digit_pred());
    lemma_run_length_bound(s, pos + 1, string_body_pred());
}

fn token_at_exec(chars: &Vec<char>, pos: usize) -> (r: Option<(TokenType, usize)>)
    requires
        pos < chars@.len(),
    ensures
        match r {
            Some((t, n)) => token_at(chars@, pos as int) == Some((t, n as nat)),
            None => token_at(chars@, pos as int) is None,
        },
{
    let n = chars.len();
    let c = chars[pos];
    if ('a' <= c && c <= 'z') || ('A' <= c && c <= 'Z') || c == '_' {
        let len = run_exec(chars, pos, CharClass::Ident);
        Some((keyword_or_identifier_exec(chars, pos, pos + len), len))
    } else if '0' <= c && c <= '9' {
        let len = run_exec(chars, pos, CharClass::Digit);
        Some((TokenType::IntLiteral, len))
    } else if c == '"' {
        let body = run_exec(chars, pos + 1, CharClass::StringBody);
        if pos + 1 + body < n {
            Some((TokenType::StringLiteral, body + 2))
        } else {
            None
        }
    } else if n - pos > 2 && operator3_exec(c, chars[pos + 1], chars[pos + 2]).is_some() {
        let t = operator3_exec(c, chars[pos + 1], chars[pos + 2]).unwrap();
        Some((t, 3))
    } else if n - pos > 1 && operator2_exec(c, chars[pos + 1]).is_some() {
        let t = operator2_exec(c, chars[pos + 1]).unwrap();
        Some((t, 2))
    } else if operator1_exec(c).is_some() {
        let t = operator1_exec(c).unwrap();
        Some((t, 1))
    } else {
        None
    }
}

fn get_indent_token(
    line_index: usize,
    content: &str,
    chars: &Vec<char>,
    offsets: &Vec<usize>,
    interner: &mut GlobalStringInterner,
) -> (r: Result<Token, CompilerError>)
    requires
        chars@ == content@,
        offsets@.len() == chars@.len() + 1,
        forall|k: int| 0 <= k <= chars@.len() ==> #[trigger] offsets@[k] == byte_offset(chars@, k),
        old(interner).wf(),
        old(interner)@.len() < u32::MAX,
    ensures
        final(interner).wf(),
        final(interner)@ == intern_one(old(interner)@, content@.subrange(0, leading_spaces(content@) as int)),
        match r {
            Ok(t) => leading_spaces(content@) % 4 == 0 && indent_token_ok(t, line_index, content@, final(interner)@),
            Err(e) => leading_spaces(content@) % 4 != 0 && e == (CompilerError {
                error_type: ErrorKind::Lexer(LexerError::UnalignedIndent(leading_spaces(content@) as usize)),
                span: line_span(line_index, content@, 0, leading_spaces(content@) as int),
            }),
        },
{
    let indent_spaces = run_exec(chars, 0, CharClass::Space);
    let indent_chars = content.substring_char(0, indent_spaces);
    let indent = interner.get_intern_symbol(indent_chars);
    assert(chars@.subrange(0, 0) =~= Seq::<char>::empty());
    assert(offsets@[0] == byte_offset(chars@, 0));
    let span = SourceSpan::single_line(line_index, offsets[0], offsets[indent_spaces]);
    if indent_spaces % INDENT_SIZE != 0 {
        Err(LexerError::UnalignedIndent(indent_spaces).at(span))
    } else {
        Ok(Token::new(TokenType::Indent(indent_spaces / INDENT_SIZE), indent, span))
    }
}

/// Prepends lexemes to the result of a scan.
pub open spec fn prepend_lexemes(
    done: Seq<(TokenType, int, int)>,
    r: Result<Seq<(TokenType, int, int)>, int>,
) -> Result<Seq<(TokenType, int, int)>, int> {
    match r {
        Ok(rest) => Ok(done + rest),
        Err(e) => Err(e),
    }
}

proof fn lemma_intern_all_push(contents: Seq<Seq<char>>, texts: Seq<Seq<char>>, t: Seq<char>)
    ensures
        intern_all(contents, texts.push(t)) == intern_one(intern_all(contents, texts), t),
{
    assert(texts.push(t).drop_last() =~= texts);
}

/// Tokenizes one line: the indentation token, then the tokens of the line,
/// each longest match from the first non-blank character on. Every token's
/// text is interned, in order.
pub fn tokenize_line_with(
    line_index: usize,
    content: &str,
    interner: &mut GlobalStringInterner,
) -> (r: Result<LineTokens, CompilerError>)
    requires
        old(interner).wf(),
        old(interner)@.len() + content@.len() + 2 < u32::MAX,
        utf8_len(content@) < u32::MAX,
    ensures
        final(interner).wf(),
        interner_extends(old(interner)@, final(interner)@),
        final(interner)@.len() <= old(interner)@.len() + content@.len() + 2,
        match r {
            Ok(tokens) => tokenize_line_ok(tokens@, line_index, content@, old(interner)@, final(interner)@),
            Err(e) => tokenize_line_err(e, line_index, content@, final(interner)@),
        },
{
    let chars = str_to_chars(content);
    let offsets = byte_offsets(&chars);
    let n = chars.len();
    let ghost s = content@;
    let ghost base = interner@;
    let indent_token = match get_indent_token(line_index, content, &chars, &offsets, interner) {
        Ok(t) => t,
        Err(e) => {
            proof {
                lemma_intern_one_extends(base, s.subrange(0, leading_spaces(s) as int));
            }
            return Err(e);
        },
    };
    let ghost indent_text = s.subrange(0, leading_spaces(s) as int);
    proof {
        lemma_intern_one_extends(base, indent_text);
        assert(intern_all(base, seq![indent_text]) == intern_one(intern_all(base, Seq::empty()), indent_text))
            by {
            assert(seq![indent_text].drop_last() =~= Seq::<Seq<char>>::empty());
        }
    }
    let mut tokens: Vec<Token> = vec![indent_token];
    let mut pos: usize = 0;
    let ghost mut done: Seq<(TokenType, int, int)> = Seq::empty();
    assert(prepend_lexemes(done, scan(s, 0)) == scan(s, 0)) by {
        match scan(s, 0) {
            Ok(rest) => {
                assert(done + rest =~= rest);
            },
            Err(_) => {},
        }
    }
    assert(lexeme_texts(s, done) =~= Seq::<Seq<char>>::empty());
    assert(seq![indent_text] + lexeme_texts(s, done) =~= seq![indent_text]);
    loop
        invariant
            chars@ == s,
            s == content@,
            offsets@.len() == s.len() + 1,
            forall|k: int| 0 <= k <= s.len() ==> #[trigger] offsets@[k] == byte_offset(s, k),
            n == s.len(),
            pos <= n,
            interner.wf(),
            base == old(interner)@,
            base.len() + n + 2 < u32::MAX,
            done.len() <= pos,
            interner@.len() <= base.len() + 1 + done.len(),
            interner_extends(base, interner@),
            scan(s, 0) == prepend_lexemes(done, scan(s, pos as int)),
            forall|i: int| 0 <= i < done.len() ==> 0 <= (#[trigger] done[i]).1 < done[i].2 <= pos,
            tokens@.len() == done.len() + 1,
            indent_text == s.subrange(0, leading_spaces(s) as int),
            leading_spaces(s) % 4 == 0,
            indent_token_ok(tokens@[0], line_index, s, interner@),
            forall|i: int| 0 <= i < done.len()
                ==> token_for_lexeme(#[trigger] tokens@[i + 1], done[i], line_index, s, interner@),
            interner@ == intern_all(base, seq![indent_text] + lexeme_texts(s, done)),
        decreases n - pos,
    {
        let p = skip_blanks_exec(&chars, pos);
        proof {
            lemma_skip_blanks(s, pos as int);
        }
        if p >= n {
            assert(scan(s, pos as int) == Ok::<Seq<(TokenType, int, int)>, int>(Seq::empty()));
            assert(done + Seq::<(TokenType, int, int)>::empty() =~= done);
            return Ok(tokens);
        }
        match token_at_exec(&chars, p) {
            None => {
                let slice = content.substring_char(p, p + 1);
                let ghost before = interner@;
                let sym = interner.get_intern_symbol(slice);
                proof {
                    lemma_intern_one_extends(before, slice@);
                }
                return Err(LexerError::InvalidToken(sym).at(SourceSpan::single_line(line_index, offsets[p], offsets[p + 1])));
            },
            Some((t, len)) => {
                proof {
                    lemma_token_at_bounds(s, p as int);
                }
                let end = p + len;
                let slice = content.substring_char(p, end);
                let ghost before = interner@;
                let sym = interner.get_intern_symbol(slice);
                let token = Token::new(t, sym, SourceSpan::single_line(line_index, offsets[p], offsets[end]));
                let ghost old_tokens = tokens@;
                tokens.push(token);
                proof {
                    lemma_intern_one_extends(before, slice@);
                    let l = (t, p as int, end as int);
                    let old_done = done;
                    done = done.push(l);
                    assert(scan(s, pos as int) == prepend_lexemes(seq![l], scan(s, end as int)));
                    assert(scan(s, 0) == prepend_lexemes(done, scan(s, end as int))) by {
                        match scan(s, end as int) {
                            Ok(rest) => {
                                assert(old_done + (seq![l] + rest) =~= done + rest);
                            },
                            Err(_) => {},
                        }
                    }
                    assert(lexeme_texts(s, done) =~= lexeme_texts(s, old_done).push(slice@));
                    assert(seq![indent_text] + lexeme_texts(s, done) =~= (seq![indent_text] + lexeme_texts(
                        s,
                        old_done,
                    )).push(slice@));
                    lemma_intern_all_push(base, seq![indent_text] + lexeme_texts(s, old_done), slice@);
                    assert forall|i: int| 0 <= i < done.len() implies token_for_lexeme(
                        #[trigger] tokens@[i + 1],
                        done[i],
                        line_index,
                        s,
                        interner@,
                    ) by {
                        if i < old_done.len() {
                            assert(tokens@[i + 1] == old_tokens[i + 1]);
                        }
                    }
                }
                pos = end;
            },
        }
    }
}

/// Tokenizes one line of source text: the indentation token, then each
/// longest match from the first non-blank character on. The texts are
/// interned in order.
pub fn tokenize_line(line_index: usize, content: &str, ctx: &mut CompilerContext) -> (r: Result<LineTokens, CompilerError>)
    requires
        old(ctx).wf(),
        old(ctx).string_interner@.len() + utf8_len(content@) + 2 < u32::MAX,
    ensures
        final(ctx).wf(),
        final(ctx).type_arena == old(ctx).type_arena,
        final(ctx).symbol_table == old(ctx).symbol_table,
        interner_extends(old(ctx).string_interner@, final(ctx).string_interner@),
        final(ctx).string_interner@.len() <= old(ctx).string_interner@.len() + content@.len() + 2,
        match r {
            Ok(tokens) => tokenize_line_ok(tokens@, line_index, content@, old(ctx).string_interner@, final(ctx).string_interner@)
                && tokens_valid(tokens@, line_index, content@, final(ctx).string_interner@),
            Err(e) => tokenize_line_err(e, line_index, content@, final(ctx).string_interner@),
        },
{
    proof {
        lemma_utf8_at_least_chars(content@);
    }
    let r = tokenize_line_with(line_index, content, &mut ctx.string_interner);
    proof {
        assert forall|i: int| 0 <= i < ctx.type_arena.data_types@.len() implies (#[trigger] ctx.type_arena.types_view()[i] matches crate::types::data_type::DataTypeView::UserDefined(s) ==> s < ctx.string_interner@.len()) by {
            assert(old(ctx).type_arena.types_view()[i] == ctx.type_arena.types_view()[i]);
        }
    }
    r
}

} // verus!
