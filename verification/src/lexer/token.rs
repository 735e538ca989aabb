use vstd::prelude::*;
use crate::source::source_span::SourceSpan;

verus! {

/// Number of spaces that make one level of indentation.
pub const INDENT_SIZE: usize = 4;

/// The kinds of token. `Indent` carries the indentation level of a line.
#[derive(Debug, Copy, Clone, PartialEq, Eq, Structural)]
pub enum TokenType {
    Indent(usize),

    Identifier,
    IntLiteral,
    StringLiteral,

    Fn,
    If,
    Elif,
    Else,
    While,
    For,
    In,
    Return,

    Equals,
    PlusEquals,
    MinusEquals,
    StarEquals,
    SlashEquals,
    PercentEquals,
    DoubleLeftArrowEquals,
    DoubleRightArrowEquals,
    AmpersandEquals,
    CaretEquals,
    PipeEquals,

    Plus,
    Minus,
    Star,
    Slash,
    Percent,
    PlusPlus,
    MinusMinus,

    Ampersand,
    Pipe,
    Caret,
    Tilde,
    Exclamation,
    DoubleAmpersand,
    DoublePipe,
    DoubleLeftArrow,
    DoubleRightArrow,

    DoubleEquals,
    ExclamationEquals,
    Less,
    LessEquals,
    Greater,
    GreaterEquals,

    RightArrow,

    OpenParen,
    CloseParen,
    OpenBracket,
    CloseBracket,
    Dot,
    Comma,
    Colon,
}

/// A token: its kind, the interned symbol of its text, and where it stands.
#[derive(Debug, Copy, Clone, PartialEq, Eq, Structural)]
pub struct Token {
    pub token_type: TokenType,
    pub symbol: usize,
    pub span: SourceSpan,
}

impl Token {
    pub fn new(token_type: TokenType, symbol: usize, span: SourceSpan) -> (r: Self)
        ensures
            r.token_type == token_type,
            r.symbol == symbol,
            r.span == span,
    {
        Self { token_type, symbol, span }
    }

    /// Whether the token is of the given kind.
    pub fn is(&self, token_type: TokenType) -> (r: bool)
        ensures
            r == (self.token_type == token_type),
    {
        self.token_type == token_type
    }
}

/// The display name of a token kind, as used in error messages.
pub fn token_type_name(t: TokenType) -> (r: &'static str)
    ensures
        r@ == spec_token_type_name(t),
{
    match t {
        TokenType::Indent(_) => "indent",
        TokenType::Identifier => "identifier",
        TokenType::IntLiteral => "integer literal",
        TokenType::StringLiteral => "string literal",
        TokenType::Fn => "'fn'",
        TokenType::If => "'if'",
        TokenType::Elif => "'elif'",
        TokenType::Else => "'else'",
        TokenType::While => "'while'",
        TokenType::For => "'for'",
        TokenType::In => "'in'",
        TokenType::Return => "'return'",
        TokenType::Equals => "'='",
        TokenType::PlusEquals => "'+='",
        TokenType::MinusEquals => "'-='",
        TokenType::StarEquals => "'*='",
        TokenType::SlashEquals => "'/='",
        TokenType::PercentEquals => "'%='",
        TokenType::DoubleLeftArrowEquals => "'<<='",
        TokenType::DoubleRightArrowEquals => "'>>='",
        TokenType::AmpersandEquals => "'&='",
        TokenType::CaretEquals => "'^='",
        TokenType::PipeEquals => "'|='",
        TokenType::Plus => "'+'",
        TokenType::Minus => "'-'",
        TokenType::Star => "'*'",
        TokenType::Slash => "'/'",
        TokenType::Percent => "'%'",
        TokenType::PlusPlus => "'++'",
        TokenType::MinusMinus => "'--'",
        TokenType::Ampersand => "'&'",
        TokenType::Pipe => "'|'",
        TokenType::Caret => "'^'",
        TokenType::Tilde => "'~'",
        TokenType::Exclamation => "'!'",
        TokenType::DoubleAmpersand => "'&&'",
        TokenType::DoublePipe => "'||'",
        TokenType::DoubleLeftArrow => "'<<'",
        TokenType::DoubleRightArrow => "'>>'",
        TokenType::DoubleEquals => "'=='",
        TokenType::ExclamationEquals => "'!='",
        TokenType::Less => "'<'",
        TokenType::LessEquals => "'<='",
        TokenType::Greater => "'>'",
        TokenType::GreaterEquals => "'>='",
        TokenType::RightArrow => "'->'",
        TokenType::OpenParen => "'('",
        TokenType::CloseParen => "')'",
        TokenType::OpenBracket => "'['",
        TokenType::CloseBracket => "']'",
        TokenType::Dot => "'.'",
        TokenType::Comma => "','",
        TokenType::Colon => "':'",
    }
}

/// The display name of a token kind.
pub open spec fn spec_token_type_name(t: TokenType) -> Seq<char> {
    match t {
        TokenType::Indent(_) => "indent"@,
        TokenType::Identifier => "identifier"@,
        TokenType::IntLiteral => "integer literal"@,
        TokenType::StringLiteral => "string literal"@,
        TokenType::Fn => "'fn'"@,
        TokenType::If => "'if'"@,
        TokenType::Elif => "'elif'"@,
        TokenType::Else => "'else'"@,
        TokenType::While => "'while'"@,
        TokenType::For => "'for'"@,
        TokenType::In => "'in'"@,
        TokenType::Return => "'return'"@,
        TokenType::Equals => "'='"@,
        TokenType::PlusEquals => "'+='"@,
        TokenType::MinusEquals => "'-='"@,
        TokenType::StarEquals => "'*='"@,
        TokenType::SlashEquals => "'/='"@,
        TokenType::PercentEquals => "'%='"@,
        TokenType::DoubleLeftArrowEquals => "'<<='"@,
        TokenType::DoubleRightArrowEquals => "'>>='"@,
        TokenType::AmpersandEquals => "'&='"@,
        TokenType::CaretEquals => "'^='"@,
        TokenType::PipeEquals => "'|='"@,
        TokenType::Plus => "'+'"@,
        TokenType::Minus => "'-'"@,
        TokenType::Star => "'*'"@,
        TokenType::Slash => "'/'"@,
        TokenType::Percent => "'%'"@,
        TokenType::PlusPlus => "'++'"@,
        TokenType::MinusMinus => "'--'"@,
        TokenType::Ampersand => "'&'"@,
        TokenType::Pipe => "'|'"@,
        TokenType::Caret => "'^'"@,
        TokenType::Tilde => "'~'"@,
        TokenType::Exclamation => "'!'"@,
        TokenType::DoubleAmpersand => "'&&'"@,
        TokenType::DoublePipe => "'||'"@,
        TokenType::DoubleLeftArrow => "'<<'"@,
        TokenType::DoubleRightArrow => "'>>'"@,
        TokenType::DoubleEquals => "'=='"@,
        TokenType::ExclamationEquals => "'!='"@,
        TokenType::Less => "'<'"@,
        TokenType::LessEquals => "'<='"@,
        TokenType::Greater => "'>'"@,
        TokenType::GreaterEquals => "'>='"@,
        TokenType::RightArrow => "'->'"@,
        TokenType::OpenParen => "'('"@,
        TokenType::CloseParen => "')'"@,
        TokenType::OpenBracket => "'['"@,
        TokenType::CloseBracket => "']'"@,
        TokenType::Dot => "'.'"@,
        TokenType::Comma => "','"@,
        TokenType::Colon => "':'"@,
    }
}

// ------------------------------------------------------------------
// The lexical grammar of one line.
// ------------------------------------------------------------------

/// Blank characters between tokens.
pub open spec fn is_blank(c: char) -> bool {
    c == ' ' || c == '\t' || c == '\r'
}

pub open spec fn is_digit(c: char) -> bool {
    '0' <= c <= '9'
}

pub open spec fn is_ident_start(c: char) -> bool {
    ('a' <= c <= 'z') || ('A' <= c <= 'Z') || c == '_'
}

pub open spec fn is_ident_char(c: char) -> bool {
    is_ident_start(c) || is_digit(c)
}

/// Number of characters from `pos` on that satisfy `p`, stopping at the
/// first that does not.
pub open spec fn run_length(s: Seq<char>, pos: int, p: spec_fn(char) -> bool) -> nat
    decreases s.len() - pos,
{
    if pos < 0 || pos >= s.len() || !p(s[pos]) {
        0
    } else {
        1 + run_length(s, pos + 1, p)
    }
}

/// First position at or after `pos` that holds no blank.
pub open spec fn skip_blanks(s: Seq<char>, pos: int) -> int
    decreases s.len() - pos,
{
    if pos < 0 || pos >= s.len() || !is_blank(s[pos]) {
        pos
    } else {
        skip_blanks(s, pos + 1)
    }
}

/// Skipping blanks never moves backwards nor past the end, and lands on a
/// non-blank character or at the end.
pub proof fn lemma_skip_blanks(s: Seq<char>, pos: int)
    requires
        0 <= pos <= s.len(),
    ensures
        pos <= skip_blanks(s, pos) <= s.len(),
        skip_blanks(s, pos) < s.len() ==> !is_blank(s[skip_blanks(s, pos)]),
        forall|j: int| pos <= j < skip_blanks(s, pos) ==> is_blank(s[j]),
    decreases s.len() - pos,
{
    if pos < s.len() && is_blank(s[pos]) {
        lemma_skip_blanks(s, pos + 1);
    }
}

/// The predicate of identifier characters.
pub open spec fn ident_pred() -> spec_fn(char) -> bool {
    |c: char| is_ident_char(c)
}

/// The predicate of decimal digits.
pub open spec fn digit_pred() -> spec_fn(char) -> bool {
    |c: char| is_digit(c)
}

/// The predicate of characters inside a string literal.
pub open spec fn string_body_pred() -> spec_fn(char) -> bool {
    |c: char| c != '"'
}

/// The predicate of indentation characters.
pub open spec fn space_pred() -> spec_fn(char) -> bool {
    |c: char| c == ' '
}

/// The token kind of a word: a keyword, or else an identifier.
pub open spec fn keyword_or_identifier(w: Seq<char>) -> TokenType {
    if w == "fn"@ {
        TokenType::Fn
    } else if w == "if"@ {
        TokenType::If
    } else if w == "elif"@ {
        TokenType::Elif
    } else if w == "else"@ {
        TokenType::Else
    } else if w == "while"@ {
        TokenType::While
    } else if w == "for"@ {
        TokenType::For
    } else if w == "in"@ {
        TokenType::In
    } else if w == "return"@ {
        TokenType::Return
    } else {
        TokenType::Identifier
    }
}

/// Operators of three characters.
pub open spec fn operator3(a: char, b: char, c: char) -> Option<TokenType> {
    if a == '<' && b == '<' && c == '=' {
        Some(TokenType::DoubleLeftArrowEquals)
    } else if a == '>' && b == '>' && c == '=' {
        Some(TokenType::DoubleRightArrowEquals)
    } else {
        None
    }
}

/// Operators of two characters.
pub open spec fn operator2(a: char, b: char) -> Option<TokenType> {
    if b == '=' {
        if a == '+' {
            Some(TokenType::PlusEquals)
        } else if a == '-' {
            Some(TokenType::MinusEquals)
        } else if a == '*' {
            Some(TokenType::StarEquals)
        } else if a == '/' {
            Some(TokenType::SlashEquals)
        } else if a == '%' {
            Some(TokenType::PercentEquals)
        } else if a == '&' {
            Some(TokenType::AmpersandEquals)
        } else if a == '^' {
            Some(TokenType::CaretEquals)
        } else if a == '|' {
            Some(TokenType::PipeEquals)
        } else if a == '=' {
            Some(TokenType::DoubleEquals)
        } else if a == '!' {
            Some(TokenType::ExclamationEquals)
        } else if a == '<' {
            Some(TokenType::LessEquals)
        } else if a == '>' {
            Some(TokenType::GreaterEquals)
        } else {
            None
        }
    } else if a == '+' && b == '+' {
        Some(TokenType::PlusPlus)
    } else if a == '-' && b == '-' {
        Some(TokenType::MinusMinus)
    } else if a == '&' && b == '&' {
        Some(TokenType::DoubleAmpersand)
    } else if a == '|' && b == '|' {
        Some(TokenType::DoublePipe)
    } else if a == '<' && b == '<' {
        Some(TokenType::DoubleLeftArrow)
    } else if a == '>' && b == '>' {
        Some(TokenType::DoubleRightArrow)
    } else if a == '-' && b == '>' {
        Some(TokenType::RightArrow)
    } else {
        None
    }
}

/// Operators and punctuation of one character.
pub open spec fn operator1(a: char) -> Option<TokenType> {
    if a == '=' {
        Some(TokenType::Equals)
    } else if a == '+' {
        Some(TokenType::Plus)
    } else if a == '-' {
        Some(TokenType::Minus)
    } else if a == '*' {
        Some(TokenType::Star)
    } else if a == '/' {
        Some(TokenType::Slash)
    } else if a == '%' {
        Some(TokenType::Percent)
    } else if a == '&' {
        Some(TokenType::Ampersand)
    } else if a == '|' {
        Some(TokenType::Pipe)
    } else if a == '^' {
        Some(TokenType::Caret)
    } else if a == '~' {
        Some(TokenType::Tilde)
    } else if a == '!' {
        Some(TokenType::Exclamation)
    } else if a == '<' {
        Some(TokenType::Less)
    } else if a == '>' {
        Some(TokenType::Greater)
    } else if a == '(' {
        Some(TokenType::OpenParen)
    } else if a == ')' {
        Some(TokenType::CloseParen)
    } else if a == '[' {
        Some(TokenType::OpenBracket)
    } else if a == ']' {
        Some(TokenType::CloseBracket)
    } else if a == '.' {
        Some(TokenType::Dot)
    } else if a == ',' {
        Some(TokenType::Comma)
    } else if a == ':' {
        Some(TokenType::Colon)
    } else {
        None
    }
}

/// Length of a string literal starting with the quote at `pos`: up to and
/// including the next quote, if there is one on the line.
pub open spec fn string_literal_len(s: Seq<char>, pos: int) -> Option<nat> {
    let body = run_length(s, pos + 1, string_body_pred());
    if pos + 1 + body < s.len() {
        Some(body + 2)
    } else {
        None
    }
}

/// The token that starts at `pos` (which holds no blank): its kind and
/// length, the longest match. `None` where no token starts.
pub open spec fn token_at(s: Seq<char>, pos: int) -> Option<(TokenType, nat)> {
    let c = s[pos];
    if is_ident_start(c) {
        let n = run_length(s, pos, ident_pred());
        Some((keyword_or_identifier(s.subrange(pos, pos + n)), n))
    } else if is_digit(c) {
        Some((TokenType::IntLiteral, run_length(s, pos, digit_pred())))
    } else if c == '"' {
        match string_literal_len(s, pos) {
            Some(n) => Some((TokenType::StringLiteral, n)),
            None => None,
        }
    } else if pos + 2 < s.len() && operator3(c, s[pos + 1], s[pos + 2]) is Some {
        Some((operator3(c, s[pos + 1], s[pos + 2])->0, 3))
    } else if pos + 1 < s.len() && operator2(c, s[pos + 1]) is Some {
        Some((operator2(c, s[pos + 1])->0, 2))
    } else if operator1(c) is Some {
        Some((operator1(c)->0, 1))
    } else {
        None
    }
}

/// The tokens of `s` from `pos` on, as (kind, start, end) triples, or the
/// position of the first character where no token starts.
pub open spec fn scan(s: Seq<char>, pos: int) -> Result<Seq<(TokenType, int, int)>, int>
    decreases s.len() - pos,
{
    let p = skip_blanks(s, pos);
    if pos < 0 || pos > s.len() || p >= s.len() {
        Ok(Seq::empty())
    } else {
        match token_at(s, p) {
            None => Err(p),
            Some((t, n)) => {
                if n == 0 || p + n > s.len() {
                    Err(p)
                } else {
                    proof {
                        lemma_skip_blanks(s, pos);
                    }
                    match scan(s, p + n) {
                        Ok(rest) => Ok(seq![(t, p, p + n)] + rest),
                        Err(e) => Err(e),
                    }
                }
            },
        }
    }
}

/// `ls` cuts the line `s` from `pos` on into lexemes: each lexeme is
/// non-empty and lies within the line after `pos`, lexemes come in order
/// without overlapping, and every character that is not blank belongs to a
/// lexeme.
pub open spec fn lexemes_partition(s: Seq<char>, pos: int, ls: Seq<(TokenType, int, int)>) -> bool {
    &&& forall|i: int| 0 <= i < ls.len() ==> pos <= (#[trigger] ls[i]).1 < ls[i].2 <= s.len()
    &&& forall|i: int, j: int| 0 <= i < j < ls.len() ==> (#[trigger] ls[i]).2 <= (#[trigger] ls[j]).1
    &&& forall|k: int| pos <= k < s.len() && !is_blank(s[k]) ==> exists|i: int|
        0 <= i < ls.len() && (#[trigger] ls[i]).1 <= k < ls[i].2
}

/// Each lexeme of a successful scan from `pos` is the token that starts
/// where the lexeme starts, with the lexeme's length.
pub proof fn lemma_scan_token_at(s: Seq<char>, pos: int)
    requires
        0 <= pos <= s.len(),
    ensures
        scan(s, pos) matches Ok(ls) ==> forall|i: int| 0 <= i < ls.len() ==> {
            &&& 0 <= (#[trigger] ls[i]).1 < ls[i].2 <= s.len()
            &&& token_at(s, ls[i].1) == Some((ls[i].0, (ls[i].2 - ls[i].1) as nat))
        },
    decreases s.len() - pos,
{
    lemma_skip_blanks(s, pos);
    let p = skip_blanks(s, pos);
    if p < s.len() {
        match token_at(s, p) {
            None => {},
            Some((t, n)) => {
                if n > 0 && p + n <= s.len() {
                    lemma_scan_token_at(s, p + n);
                    match scan(s, p + n) {
                        Ok(rest) => {
                            let ls = seq![(t, p, p + n)] + rest;
                            assert(scan(s, pos) == Ok::<Seq<(TokenType, int, int)>, int>(ls));
                            assert forall|i: int| 0 <= i < ls.len() implies {
                                &&& 0 <= (#[trigger] ls[i]).1 < ls[i].2 <= s.len()
                                &&& token_at(s, ls[i].1) == Some((ls[i].0, (ls[i].2 - ls[i].1) as nat))
                            } by {
                                if i > 0 {
                                    assert(ls[i] == rest[i - 1]);
                                }
                            }
                        },
                        Err(_) => {},
                    }
                }
            },
        }
    }
}

/// A successful scan from `pos` cuts the rest of the line into lexemes:
/// each lexeme is non-empty and lies within the line after `pos`, lexemes
/// come in order without overlapping, and every character that is not blank
/// belongs to a lexeme.
#[verifier::spinoff_prover]
#[verifier::rlimit(40)]
pub proof fn lemma_scan_lexemes(s: Seq<char>, pos: int)
    requires
        0 <= pos <= s.len(),
    ensures
        scan(s, pos) matches Ok(ls) ==> lexemes_partition(s, pos, ls),
    decreases s.len() - pos,
{
    lemma_skip_blanks(s, pos);
    let p = skip_blanks(s, pos);
    if p < s.len() {
        crate::lexer::tokenizer::lemma_token_at_bounds(s, p);
        match token_at(s, p) {
            None => {
                assert(scan(s, pos) is Err);
            },
            Some((t, n)) => {
                if n > 0 && p + n <= s.len() {
                    lemma_scan_lexemes(s, p + n);
                    match scan(s, p + n) {
                        Ok(rest) => {
                            let ls = seq![(t, p, p + n)] + rest;
                            assert(scan(s, pos) == Ok::<Seq<(TokenType, int, int)>, int>(ls));
                            assert forall|i: int, j: int| 0 <= i < j < ls.len() implies (#[trigger] ls[i]).2 <= (#[trigger] ls[j]).1 by {
                                if i > 0 {
                                    assert(ls[i] == rest[i - 1]);
                                    assert(ls[j] == rest[j - 1]);
                                } else {
                                    assert(ls[j] == rest[j - 1]);
                                }
                            }
                            assert forall|i: int| 0 <= i < ls.len() implies pos <= (#[trigger] ls[i]).1 < ls[i].2 <= s.len() by {
                                if i > 0 {
                                    assert(ls[i] == rest[i - 1]);
                                }
                            }
                            assert forall|k: int| pos <= k < s.len() && !is_blank(s[k]) implies exists|i: int|
                                0 <= i < ls.len() && (#[trigger] ls[i]).1 <= k < ls[i].2 by {
                                if k < p {
                                    assert(is_blank(s[k]));
                                } else if k < p + n {
                                    assert(ls[0].1 <= k < ls[0].2);
                                } else {
                                    let i = choose|i: int| 0 <= i < rest.len() && (#[trigger] rest[i]).1 <= k < rest[i].2;
                                    assert(ls[i + 1] == rest[i]);
                                }
                            }
                            assert(lexemes_partition(s, pos, ls));
                        },
                        Err(_) => {
                            assert(scan(s, pos) is Err);
                        },
                    }
                } else {
                    assert(scan(s, pos) is Err);
                }
            },
        }
    } else {
        assert(scan(s, pos) == Ok::<Seq<(TokenType, int, int)>, int>(Seq::empty()));
        assert forall|k: int| pos <= k < s.len() implies is_blank(s[k]) by {}
        assert(lexemes_partition(s, pos, Seq::empty()));
    }
}

/// Number of spaces at the start of a line.
pub open spec fn leading_spaces(s: Seq<char>) -> nat {
    run_length(s, 0, space_pred())
}

/// A text that is one token, with no blank before it, scans as that one
/// token.
pub proof fn lemma_scan_one_token(s: Seq<char>)
    requires
        s.len() >= 1,
        !is_blank(s[0]),
        token_at(s, 0) matches Some((t, n)) && n == s.len(),
    ensures
        token_at(s, 0) matches Some((t, n)) && scan(s, 0) == Ok::<Seq<(TokenType, int, int)>, int>(seq![(t, 0int, s.len() as int)]),
{
    reveal_with_fuel(scan, 2);
    assert(skip_blanks(s, 0) == 0);
    assert(skip_blanks(s, s.len() as int) == s.len());
    let (t, n) = token_at(s, 0)->0;
    assert(scan(s, s.len() as int) == Ok::<Seq<(TokenType, int, int)>, int>(Seq::empty()));
    assert(seq![(t, 0int, s.len() as int)] + Seq::<(TokenType, int, int)>::empty() =~= seq![(t, 0int, s.len() as int)]);
}

/// Every token kind that stands for a fixed text (a keyword, an operator or
/// a punctuation mark) is what that text lexes to: the text its display
/// name quotes scans as exactly one token of that kind.
pub proof fn lemma_token_text_lexes(t: TokenType)
    requires
        !(t is Indent || t is Identifier || t is IntLiteral || t is StringLiteral),
    ensures
        ({
            let n = spec_token_type_name(t);
            let text = n.subrange(1, n.len() - 1);
            scan(text, 0) == Ok::<Seq<(TokenType, int, int)>, int>(seq![(t, 0int, text.len() as int)])
        }),
{
    match t {
        TokenType::Fn => {
            reveal_strlit("'fn'");
            reveal_strlit("fn");
            reveal_strlit("if");
            reveal_strlit("elif");
            reveal_strlit("else");
            reveal_strlit("while");
            reveal_strlit("for");
            reveal_strlit("in");
            reveal_strlit("return");
            reveal_with_fuel(run_length, 8);
            let n = spec_token_type_name(t);
            let text = n.subrange(1, n.len() - 1);
            assert(text =~= "fn"@);
            assert(run_length(text, 0, ident_pred()) == text.len());
            assert(text.subrange(0, text.len() as int) =~= text);
            lemma_scan_one_token(text);
        },
        TokenType::If => {
            reveal_strlit("'if'");
            reveal_strlit("fn");
            reveal_strlit("if");
            reveal_strlit("elif");
            reveal_strlit("else");
            reveal_strlit("while");
            reveal_strlit("for");
            reveal_strlit("in");
            reveal_strlit("return");
            reveal_with_fuel(run_length, 8);
            let n = spec_token_type_name(t);
            let text = n.subrange(1, n.len() - 1);
            assert(text =~= "if"@);
            assert(run_length(text, 0, ident_pred()) == text.len());
            assert(text.subrange(0, text.len() as int) =~= text);
            lemma_scan_one_token(text);
        },
        TokenType::Elif => {
            reveal_strlit("'elif'");
            reveal_strlit("fn");
            reveal_strlit("if");
            reveal_strlit("elif");
            reveal_strlit("else");
            reveal_strlit("while");
            reveal_strlit("for");
            reveal_strlit("in");
            reveal_strlit("return");
            reveal_with_fuel(run_length, 8);
            let n = spec_token_type_name(t);
            let text = n.subrange(1, n.len() - 1);
            assert(text =~= "elif"@);
            assert(run_length(text, 0, ident_pred()) == text.len());
            assert(text.subrange(0, text.len() as int) =~= text);
            lemma_scan_one_token(text);
        },
        TokenType::Else => {
            reveal_strlit("'else'");
            reveal_strlit("fn");
            reveal_strlit("if");
            reveal_strlit("elif");
            reveal_strlit("else");
            reveal_strlit("while");
            reveal_strlit("for");
            reveal_strlit("in");
            reveal_strlit("return");
            reveal_with_fuel(run_length, 8);
            let n = spec_token_type_name(t);
            let text = n.subrange(1, n.len() - 1);
            assert(text =~= "else"@);
            assert(run_length(text, 0, ident_pred()) == text.len());
            assert(text.subrange(0, text.len() as int) =~= text);
            lemma_scan_one_token(text);
        },
        TokenType::While => {
            reveal_strlit("'while'");
            reveal_strlit("fn");
            reveal_strlit("if");
            reveal_strlit("elif");
            reveal_strlit("else");
            reveal_strlit("while");
            reveal_strlit("for");
            reveal_strlit("in");
            reveal_strlit("return");
            reveal_with_fuel(run_length, 8);
            let n = spec_token_type_name(t);
            let text = n.subrange(1, n.len() - 1);
            assert(text =~= "while"@);
            assert(run_length(text, 0, ident_pred()) == text.len());
            assert(text.subrange(0, text.len() as int) =~= text);
            lemma_scan_one_token(text);
        },
        TokenType::For => {
            reveal_strlit("'for'");
            reveal_strlit("fn");
            reveal_strlit("if");
            reveal_strlit("elif");
            reveal_strlit("else");
            reveal_strlit("while");
            reveal_strlit("for");
            reveal_strlit("in");
            reveal_strlit("return");
            reveal_with_fuel(run_length, 8);
            let n = spec_token_type_name(t);
            let text = n.subrange(1, n.len() - 1);
            assert(text =~= "for"@);
            assert(run_length(text, 0, ident_pred()) == text.len());
            assert(text.subrange(0, text.len() as int) =~= text);
            lemma_scan_one_token(text);
        },
        TokenType::In => {
            reveal_strlit("'in'");
            reveal_strlit("fn");
            reveal_strlit("if");
            reveal_strlit("elif");
            reveal_strlit("else");
            reveal_strlit("while");
            reveal_strlit("for");
            reveal_strlit("in");
            reveal_strlit("return");
            reveal_with_fuel(run_length, 8);
            let n = spec_token_type_name(t);
            let text = n.subrange(1, n.len() - 1);
            assert(text =~= "in"@);
            assert(run_length(text, 0, ident_pred()) == text.len());
            assert(text.subrange(0, text.len() as int) =~= text);
            lemma_scan_one_token(text);
        },
        TokenType::Return => {
            reveal_strlit("'return'");
            reveal_strlit("fn");
            reveal_strlit("if");
            reveal_strlit("elif");
            reveal_strlit("else");
            reveal_strlit("while");
            reveal_strlit("for");
            reveal_strlit("in");
            reveal_strlit("return");
            reveal_with_fuel(run_length, 8);
            let n = spec_token_type_name(t);
            let text = n.subrange(1, n.len() - 1);
            assert(text =~= "return"@);
            assert(run_length(text, 0, ident_pred()) == text.len());
            assert(text.subrange(0, text.len() as int) =~= text);
            lemma_scan_one_token(text);
        },
        TokenType::Equals => {
            reveal_strlit("'='");
            let n = spec_token_type_name(t);
            lemma_scan_one_token(n.subrange(1, n.len() - 1));
        },
        TokenType::PlusEquals => {
            reveal_strlit("'+='");
            let n = spec_token_type_name(t);
            lemma_scan_one_token(n.subrange(1, n.len() - 1));
        },
        TokenType::MinusEquals => {
            reveal_strlit("'-='");
            let n = spec_token_type_name(t);
            lemma_scan_one_token(n.subrange(1, n.len() - 1));
        },
        TokenType::StarEquals => {
            reveal_strlit("'*='");
            let n = spec_token_type_name(t);
            lemma_scan_one_token(n.subrange(1, n.len() - 1));
        },
        TokenType::SlashEquals => {
            reveal_strlit("'/='");
            let n = spec_token_type_name(t);
            lemma_scan_one_token(n.subrange(1, n.len() - 1));
        },
        TokenType::PercentEquals => {
            reveal_strlit("'%='");
            let n = spec_token_type_name(t);
            lemma_scan_one_token(n.subrange(1, n.len() - 1));
        },
        TokenType::DoubleLeftArrowEquals => {
            reveal_strlit("'<<='");
            let n = spec_token_type_name(t);
            lemma_scan_one_token(n.subrange(1, n.len() - 1));
        },
        TokenType::DoubleRightArrowEquals => {
            reveal_strlit("'>>='");
            let n = spec_token_type_name(t);
            lemma_scan_one_token(n.subrange(1, n.len() - 1));
        },
        TokenType::AmpersandEquals => {
            reveal_strlit("'&='");
            let n = spec_token_type_name(t);
            lemma_scan_one_token(n.subrange(1, n.len() - 1));
        },
        TokenType::CaretEquals => {
            reveal_strlit("'^='");
            let n = spec_token_type_name(t);
            lemma_scan_one_token(n.subrange(1, n.len() - 1));
        },
        TokenType::PipeEquals => {
            reveal_strlit("'|='");
            let n = spec_token_type_name(t);
            lemma_scan_one_token(n.subrange(1, n.len() - 1));
        },
        TokenType::Plus => {
            reveal_strlit("'+'");
            let n = spec_token_type_name(t);
            lemma_scan_one_token(n.subrange(1, n.len() - 1));
        },
        TokenType::Minus => {
            reveal_strlit("'-'");
            let n = spec_token_type_name(t);
            lemma_scan_one_token(n.subrange(1, n.len() - 1));
        },
        TokenType::Star => {
            reveal_strlit("'*'");
            let n = spec_token_type_name(t);
            lemma_scan_one_token(n.subrange(1, n.len() - 1));
        },
        TokenType::Slash => {
            reveal_strlit("'/'");
            let n = spec_token_type_name(t);
            lemma_scan_one_token(n.subrange(1, n.len() - 1));
        },
        TokenType::Percent => {
            reveal_strlit("'%'");
            let n = spec_token_type_name(t);
            lemma_scan_one_token(n.subrange(1, n.len() - 1));
        },
        TokenType::PlusPlus => {
            reveal_strlit("'++'");
            let n = spec_token_type_name(t);
            lemma_scan_one_token(n.subrange(1, n.len() - 1));
        },
        TokenType::MinusMinus => {
            reveal_strlit("'--'");
            let n = spec_token_type_name(t);
            lemma_scan_one_token(n.subrange(1, n.len() - 1));
        },
        TokenType::Ampersand => {
            reveal_strlit("'&'");
            let n = spec_token_type_name(t);
            lemma_scan_one_token(n.subrange(1, n.len() - 1));
        },
        TokenType::Pipe => {
            reveal_strlit("'|'");
            let n = spec_token_type_name(t);
            lemma_scan_one_token(n.subrange(1, n.len() - 1));
        },
        TokenType::Caret => {
            reveal_strlit("'^'");
            let n = spec_token_type_name(t);
            lemma_scan_one_token(n.subrange(1, n.len() - 1));
        },
        TokenType::Tilde => {
            reveal_strlit("'~'");
            let n = spec_token_type_name(t);
            lemma_scan_one_token(n.subrange(1, n.len() - 1));
        },
        TokenType::Exclamation => {
            reveal_strlit("'!'");
            let n = spec_token_type_name(t);
            lemma_scan_one_token(n.subrange(1, n.len() - 1));
        },
        TokenType::DoubleAmpersand => {
            reveal_strlit("'&&'");
            let n = spec_token_type_name(t);
            lemma_scan_one_token(n.subrange(1, n.len() - 1));
        },
        TokenType::DoublePipe => {
            reveal_strlit("'||'");
            let n = spec_token_type_name(t);
            lemma_scan_one_token(n.subrange(1, n.len() - 1));
        },
        TokenType::DoubleLeftArrow => {
            reveal_strlit("'<<'");
            let n = spec_token_type_name(t);
            lemma_scan_one_token(n.subrange(1, n.len() - 1));
        },
        TokenType::DoubleRightArrow => {
            reveal_strlit("'>>'");
            let n = spec_token_type_name(t);
            lemma_scan_one_token(n.subrange(1, n.len() - 1));
        },
        TokenType::DoubleEquals => {
            reveal_strlit("'=='");
            let n = spec_token_type_name(t);
            lemma_scan_one_token(n.subrange(1, n.len() - 1));
        },
        TokenType::ExclamationEquals => {
            reveal_strlit("'!='");
            let n = spec_token_type_name(t);
            lemma_scan_one_token(n.subrange(1, n.len() - 1));
        },
        TokenType::Less => {
            reveal_strlit("'<'");
            let n = spec_token_type_name(t);
            lemma_scan_one_token(n.subrange(1, n.len() - 1));
        },
        TokenType::LessEquals => {
            reveal_strlit("'<='");
            let n = spec_token_type_name(t);
            lemma_scan_one_token(n.subrange(1, n.len() - 1));
        },
        TokenType::Greater => {
            reveal_strlit("'>'");
            let n = spec_token_type_name(t);
            lemma_scan_one_token(n.subrange(1, n.len() - 1));
        },
        TokenType::GreaterEquals => {
            reveal_strlit("'>='");
            let n = spec_token_type_name(t);
            lemma_scan_one_token(n.subrange(1, n.len() - 1));
        },
        TokenType::RightArrow => {
            reveal_strlit("'->'");
            let n = spec_token_type_name(t);
            lemma_scan_one_token(n.subrange(1, n.len() - 1));
        },
        TokenType::OpenParen => {
            reveal_strlit("'('");
            let n = spec_token_type_name(t);
            lemma_scan_one_token(n.subrange(1, n.len() - 1));
        },
        TokenType::CloseParen => {
            reveal_strlit("')'");
            let n = spec_token_type_name(t);
            lemma_scan_one_token(n.subrange(1, n.len() - 1));
        },
        TokenType::OpenBracket => {
            reveal_strlit("'['");
            let n = spec_token_type_name(t);
            lemma_scan_one_token(n.subrange(1, n.len() - 1));
        },
        TokenType::CloseBracket => {
            reveal_strlit("']'");
            let n = spec_token_type_name(t);
            lemma_scan_one_token(n.subrange(1, n.len() - 1));
        },
        TokenType::Dot => {
            reveal_strlit("'.'");
            let n = spec_token_type_name(t);
            lemma_scan_one_token(n.subrange(1, n.len() - 1));
        },
        TokenType::Comma => {
            reveal_strlit("','");
            let n = spec_token_type_name(t);
            lemma_scan_one_token(n.subrange(1, n.len() - 1));
        },
        TokenType::Colon => {
            reveal_strlit("':'");
            let n = spec_token_type_name(t);
            lemma_scan_one_token(n.subrange(1, n.len() - 1));
        },
        _ => {},
    }
}

} // verus!
