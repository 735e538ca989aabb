use vstd::prelude::*;
use crate::error::spanned_error::{CompilerError, ErrorKind};
use crate::syntax::error::SyntaxError;
use crate::lexer::token::{Token, TokenType};
use crate::source::source_span::SourceSpan;
use crate::syntax::parser::token_stream::TokenStream;
use crate::types::type_annotation::TypeAnnotation;

verus! {

/// Closes a list of type arguments: a `>`, or half of a `>>` (the second
/// half closes the enclosing list).
fn assert_type_params_closed(token_stream: &mut TokenStream) -> (r: Result<(), CompilerError>)
    requires
        old(token_stream).wf(),
    ensures
        final(token_stream).wf(),
        final(token_stream).tokens == old(token_stream).tokens,
        old(token_stream).pos <= final(token_stream).pos <= old(token_stream).pos + 1,
        (old(token_stream).spec_peek() matches Some(t) && t.token_type is DoubleRightArrow) ==> {
            &&& r is Ok
            &&& old(token_stream).curr_token_split ==> final(token_stream).pos == old(token_stream).pos + 1
                && !final(token_stream).curr_token_split
            &&& !old(token_stream).curr_token_split ==> final(token_stream).pos == old(token_stream).pos
                && final(token_stream).curr_token_split
        },
        !(old(token_stream).spec_peek() matches Some(t) && t.token_type is DoubleRightArrow) ==> {
            &&& (r is Ok <==> (old(token_stream).spec_peek() matches Some(t) && t.token_type is Greater))
            &&& r is Ok ==> final(token_stream).pos == old(token_stream).pos + 1
        },
{
    if token_stream.peek_matches(TokenType::DoubleRightArrow) {
        if token_stream.is_curr_token_split() {
            token_stream.next();
        } else {
            token_stream.split_curr_token();
        }
    } else {
        token_stream.expect_next_token(TokenType::Greater)?;
    }
    Ok(())
}

/// A type without arguments at token `p`: a name not followed by `<`.
pub open spec fn simple_type_at(tokens: Seq<Token>, p: int) -> bool {
    &&& 0 <= p < tokens.len()
    &&& tokens[p].token_type is Identifier
    &&& !(p + 1 < tokens.len() && tokens[p + 1].token_type is Less)
}

/// A type with one argument at token `p`: a name, `<`, a type without
/// arguments, `>`.
pub open spec fn one_argument_type_at(tokens: Seq<Token>, p: int) -> bool {
    &&& 0 <= p && p + 3 < tokens.len()
    &&& tokens[p].token_type is Identifier
    &&& tokens[p + 1].token_type is Less
    &&& simple_type_at(tokens, p + 2)
    &&& tokens[p + 3].token_type is Greater
}

/// A type with one argument at token `p` whose `>` is the first half of a
/// `>>`: a name, `<`, a type without arguments, `>>`.
pub open spec fn half_closed_type_at(tokens: Seq<Token>, p: int) -> bool {
    &&& 0 <= p && p + 3 < tokens.len()
    &&& tokens[p].token_type is Identifier
    &&& tokens[p + 1].token_type is Less
    &&& simple_type_at(tokens, p + 2)
    &&& tokens[p + 3].token_type is DoubleRightArrow
}

/// A type whose one argument has one argument, both lists closed by one
/// `>>`: a name, `<`, then such a half-closed type.
pub open spec fn nested_type_at(tokens: Seq<Token>, p: int) -> bool {
    &&& 0 <= p && p + 5 < tokens.len()
    &&& tokens[p].token_type is Identifier
    &&& tokens[p + 1].token_type is Less
    &&& half_closed_type_at(tokens, p + 2)
}

fn parse_inner_types(token_stream: &mut TokenStream) -> (r: Result<Vec<TypeAnnotation>, CompilerError>)
    requires
        old(token_stream).wf(),
    ensures
        final(token_stream).wf(),
        final(token_stream).tokens == old(token_stream).tokens,
        final(token_stream).pos >= old(token_stream).pos,
        r is Ok ==> final(token_stream).pos > old(token_stream).pos,
        r matches Ok(v) ==> v@.len() >= 1,
        (simple_type_at(old(token_stream).tokens@, old(token_stream).pos as int) && !(old(token_stream).pos + 1
            < old(token_stream).tokens@.len() && old(token_stream).tokens@[old(token_stream).pos + 1].token_type is Comma))
            ==> (r matches Ok(v) && v@.len() == 1 && v@[0].type_symbol == old(token_stream).tokens@[old(token_stream).pos as int].symbol
            && v@[0].inner_types@.len() == 0 && final(token_stream).pos == old(token_stream).pos + 1 && !final(token_stream).curr_token_split),
        (half_closed_type_at(old(token_stream).tokens@, old(token_stream).pos as int) && !old(token_stream).curr_token_split) ==> (r matches Ok(v) && v@.len() == 1
            && v@[0].type_symbol == old(token_stream).tokens@[old(token_stream).pos as int].symbol && v@[0].inner_types@.len() == 1
            && v@[0].inner_types@[0].type_symbol == old(token_stream).tokens@[old(token_stream).pos + 2].symbol
            && v@[0].inner_types@[0].inner_types@.len() == 0 && final(token_stream).pos == old(token_stream).pos + 3
            && final(token_stream).curr_token_split),
    decreases old(token_stream).remaining(), 1nat,
{
    let first = parse_type_annotation(token_stream)?;
    let mut inner_types = vec![first];
    while token_stream.peek_matches(TokenType::Comma)
        invariant
            token_stream.wf(),
            token_stream.tokens == old(token_stream).tokens,
            token_stream.pos > old(token_stream).pos,
            inner_types@.len() >= 1,
            (simple_type_at(old(token_stream).tokens@, old(token_stream).pos as int) && !(old(token_stream).pos + 1
                < old(token_stream).tokens@.len() && old(token_stream).tokens@[old(token_stream).pos + 1].token_type is Comma))
                ==> (inner_types@.len() == 1 && inner_types@[0].type_symbol == old(token_stream).tokens@[old(token_stream).pos as int].symbol
                && inner_types@[0].inner_types@.len() == 0 && token_stream.pos == old(token_stream).pos + 1 && !token_stream.curr_token_split),
            (half_closed_type_at(old(token_stream).tokens@, old(token_stream).pos as int) && !old(token_stream).curr_token_split) ==> (inner_types@.len() == 1
                && inner_types@[0].type_symbol == old(token_stream).tokens@[old(token_stream).pos as int].symbol && inner_types@[0].inner_types@.len() == 1
                && inner_types@[0].inner_types@[0].type_symbol == old(token_stream).tokens@[old(token_stream).pos + 2].symbol
                && inner_types@[0].inner_types@[0].inner_types@.len() == 0 && token_stream.pos == old(token_stream).pos + 3
                && token_stream.curr_token_split),
        decreases token_stream.remaining(),
    {
        token_stream.next();
        let t = parse_type_annotation(token_stream)?;
        inner_types.push(t);
    }
    Ok(inner_types)
}

/// Parses a type: a name, optionally followed by type arguments in angle
/// brackets. The span runs from the name to the last token consumed.
pub fn parse_type_annotation(token_stream: &mut TokenStream) -> (r: Result<TypeAnnotation, CompilerError>)
    requires
        old(token_stream).wf(),
    ensures
        final(token_stream).wf(),
        final(token_stream).tokens == old(token_stream).tokens,
        final(token_stream).pos >= old(token_stream).pos,
        r is Ok ==> final(token_stream).pos > old(token_stream).pos,
        r matches Ok(t) ==> {
            &&& old(token_stream).spec_peek() matches Some(name) && name.token_type is Identifier
                && t.type_symbol == name.symbol && t.span.start == name.span.start
            &&& t.span.end == final(token_stream).tokens@[final(token_stream).prev as int].span.end
            &&& (t.inner_types@.len() == 0 <==> !(old(token_stream).tokens@.len() > old(token_stream).pos + 1
                && old(token_stream).tokens@[old(token_stream).pos + 1].token_type is Less))
        },
        !(old(token_stream).spec_peek() matches Some(name) && name.token_type is Identifier) ==> (r matches Err(e)
            && e.error_type == ErrorKind::Syntax(
            SyntaxError::ExpectedToken { expected: TokenType::Identifier, actual: old(token_stream).spec_peek() },
        )),
        simple_type_at(old(token_stream).tokens@, old(token_stream).pos as int) ==> (r matches Ok(t) && t.type_symbol
            == old(token_stream).tokens@[old(token_stream).pos as int].symbol && t.inner_types@.len() == 0
            && final(token_stream).pos == old(token_stream).pos + 1 && !final(token_stream).curr_token_split),
        (one_argument_type_at(old(token_stream).tokens@, old(token_stream).pos as int) && !old(token_stream).curr_token_split)
            ==> (r matches Ok(t) && t.type_symbol == old(token_stream).tokens@[old(token_stream).pos as int].symbol
            && t.inner_types@.len() == 1 && t.inner_types@[0].type_symbol == old(token_stream).tokens@[old(token_stream).pos + 2].symbol
            && final(token_stream).pos == old(token_stream).pos + 4),
        (half_closed_type_at(old(token_stream).tokens@, old(token_stream).pos as int) && !old(token_stream).curr_token_split) ==> (r matches Ok(t) && t.type_symbol
            == old(token_stream).tokens@[old(token_stream).pos as int].symbol && t.inner_types@.len() == 1 && t.inner_types@[0].type_symbol == old(token_stream).tokens@[old(token_stream).pos + 2].symbol
            && t.inner_types@[0].inner_types@.len() == 0
            && final(token_stream).pos == old(token_stream).pos + 3 && final(token_stream).curr_token_split),
        (nested_type_at(old(token_stream).tokens@, old(token_stream).pos as int) && !old(token_stream).curr_token_split) ==> (r matches Ok(t) && t.type_symbol
            == old(token_stream).tokens@[old(token_stream).pos as int].symbol && t.inner_types@.len() == 1 && t.inner_types@[0].type_symbol == old(token_stream).tokens@[old(token_stream).pos + 2].symbol
            && t.inner_types@[0].inner_types@.len() == 1 && t.inner_types@[0].inner_types@[0].type_symbol == old(token_stream).tokens@[old(token_stream).pos + 4].symbol
            && t.inner_types@[0].inner_types@[0].inner_types@.len() == 0
            && final(token_stream).pos == old(token_stream).pos + 6 && !final(token_stream).curr_token_split),
    decreases old(token_stream).remaining(), 0nat,
{
    let type_token = token_stream.expect_next_identifier()?;
    let type_symbol = type_token.symbol;
    let type_span_start = type_token.span.start;
    if token_stream.peek_matches(TokenType::Less) {
        token_stream.next();
        let inner_types = parse_inner_types(token_stream)?;
        assert_type_params_closed(token_stream)?;
        let type_span = SourceSpan::new(type_span_start, token_stream.prev_span().end);
        Ok(TypeAnnotation::with_params(type_symbol, inner_types, type_span))
    } else {
        let type_span = SourceSpan::new(type_span_start, token_stream.prev_span().end);
        Ok(TypeAnnotation::new(type_symbol, type_span))
    }
}

} // verus!
