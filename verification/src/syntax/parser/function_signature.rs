use vstd::prelude::*;
use crate::ast::function_def_node::Parameter;
use crate::error::spanned_error::CompilerError;
use crate::lexer::token::TokenType;
use crate::source::source_span::SourceSpan;
use crate::syntax::parser::token_stream::TokenStream;
use crate::syntax::parser::type_annotation::{parse_type_annotation, simple_type_at};
use crate::types::type_annotation::TypeAnnotation;

verus! {

/// The name of a function: the identifier after `fn`.
pub fn parse_function_name(token_stream: &mut TokenStream) -> (r: Result<usize, CompilerError>)
    requires
        old(token_stream).wf(),
    ensures
        final(token_stream).wf(),
        final(token_stream).tokens == old(token_stream).tokens,
        match old(token_stream).spec_peek() {
            None => r is Err && final(token_stream).pos == old(token_stream).pos,
            Some(t) => final(token_stream).pos == old(token_stream).pos + 1 && if t.token_type is Identifier {
                r == Ok::<usize, CompilerError>(t.symbol)
            } else {
                r is Err
            },
        },
{
    let name = token_stream.expect_next_identifier()?;
    Ok(name.symbol)
}

/// One parameter, `name: type`; its span runs from the name to the end of
/// the type.
fn parse_parameter(token_stream: &mut TokenStream) -> (r: Result<Parameter, CompilerError>)
    requires
        old(token_stream).wf(),
    ensures
        final(token_stream).wf(),
        final(token_stream).tokens == old(token_stream).tokens,
        final(token_stream).pos >= old(token_stream).pos,
        r is Ok ==> final(token_stream).pos >= old(token_stream).pos + 3,
        r matches Ok(p) ==> {
            &&& old(token_stream).spec_peek() matches Some(name) && name.token_type is Identifier
                && p.name == name.symbol && p.span.start == name.span.start
            &&& old(token_stream).tokens@[old(token_stream).pos + 1].token_type is Colon
            &&& p.span.end == p.type_annotation.span.end
            &&& exists|k: int| 0 <= k < old(token_stream).tokens@.len()
                && (#[trigger] old(token_stream).tokens@[k]).symbol == p.type_annotation.type_symbol
        },
        !(old(token_stream).spec_peek() matches Some(name) && name.token_type is Identifier) ==> r is Err,
        (old(token_stream).pos + 1 < old(token_stream).tokens@.len() && old(token_stream).tokens@[old(token_stream).pos as int].token_type is Identifier
            && old(token_stream).tokens@[old(token_stream).pos + 1].token_type is Colon
            && simple_type_at(old(token_stream).tokens@, old(token_stream).pos + 2)) ==> (r matches Ok(p) && p.name
            == old(token_stream).tokens@[old(token_stream).pos as int].symbol && p.type_annotation.type_symbol
            == old(token_stream).tokens@[old(token_stream).pos + 2].symbol && final(token_stream).pos == old(token_stream).pos + 3),
{
    let name = token_stream.expect_next_identifier()?;
    token_stream.expect_next_token(TokenType::Colon)?;
    let ghost type_pos = token_stream.pos as int;
    let type_annotation = parse_type_annotation(token_stream)?;
    assert(old(token_stream).tokens@[type_pos].symbol == type_annotation.type_symbol);
    let span = SourceSpan::new(name.span.start, type_annotation.span.end);
    Ok(Parameter::new(name.symbol, type_annotation, span))
}

/// The parameter list: `(` then nothing or `name: type` items separated by
/// commas, then `)`.
pub fn parse_parameters(token_stream: &mut TokenStream) -> (r: Result<Vec<Parameter>, CompilerError>)
    requires
        old(token_stream).wf(),
    ensures
        final(token_stream).wf(),
        final(token_stream).tokens == old(token_stream).tokens,
        final(token_stream).pos >= old(token_stream).pos,
        !(old(token_stream).spec_peek() matches Some(t) && t.token_type is OpenParen) ==> r is Err,
        r is Ok ==> final(token_stream).pos >= old(token_stream).pos + 2
            && final(token_stream).tokens@[final(token_stream).prev as int].token_type is CloseParen,
        (old(token_stream).spec_peek() matches Some(t) && t.token_type is OpenParen)
            && old(token_stream).tokens@.len() > old(token_stream).pos + 1
            && old(token_stream).tokens@[old(token_stream).pos + 1].token_type is CloseParen
            ==> (r matches Ok(v) && v@.len() == 0 && final(token_stream).pos == old(token_stream).pos + 2),
        r matches Ok(v) ==> forall|i: int| 0 <= i < v@.len() ==> {
            let p = #[trigger] v@[i];
            exists|k: int| old(token_stream).pos < k < final(token_stream).pos
                && old(token_stream).tokens@[k].token_type is Identifier
                && old(token_stream).tokens@[k].symbol == p.name
                && old(token_stream).tokens@[k].span.start == p.span.start
        },
        r matches Ok(v) ==> forall|i: int| 0 <= i < v@.len() ==> exists|k: int| 0 <= k < old(token_stream).tokens@.len()
            && (#[trigger] old(token_stream).tokens@[k]).symbol == (#[trigger] v@[i]).type_annotation.type_symbol,
{
    token_stream.expect_next_token(TokenType::OpenParen)?;
    let mut params: Vec<Parameter> = Vec::new();
    if token_stream.peek_matches(TokenType::CloseParen) {
        token_stream.next();
        return Ok(params);
    }
    let start = Ghost(token_stream.pos);
    loop
        invariant
            token_stream.wf(),
            token_stream.tokens == old(token_stream).tokens,
            token_stream.pos >= start@ == old(token_stream).pos + 1,
            params@.len() > 0 ==> token_stream.pos > start@,
            old(token_stream).spec_peek() matches Some(t) && t.token_type is OpenParen,
            !(old(token_stream).tokens@.len() > old(token_stream).pos + 1
                && old(token_stream).tokens@[old(token_stream).pos + 1].token_type is CloseParen),
            forall|i: int| 0 <= i < params@.len() ==> {
                let p = #[trigger] params@[i];
                exists|k: int| old(token_stream).pos < k < token_stream.pos
                    && old(token_stream).tokens@[k].token_type is Identifier
                    && old(token_stream).tokens@[k].symbol == p.name
                    && old(token_stream).tokens@[k].span.start == p.span.start
            },
            forall|i: int| 0 <= i < params@.len() ==> exists|k: int| 0 <= k < old(token_stream).tokens@.len()
                && (#[trigger] old(token_stream).tokens@[k]).symbol == (#[trigger] params@[i]).type_annotation.type_symbol,
        decreases token_stream.remaining(),
    {
        let ghost before = token_stream.pos;
        let param = parse_parameter(token_stream)?;
        assert(old(token_stream).pos < before < token_stream.pos);
        params.push(param);
        if token_stream.peek_matches(TokenType::Comma) {
            token_stream.next();
        } else {
            token_stream.expect_next_token(TokenType::CloseParen)?;
            return Ok(params);
        }
    }
}

/// The declared return type: `-> type` if the signature goes on with an
/// arrow, no type otherwise.
pub fn parse_return_type(token_stream: &mut TokenStream) -> (r: Result<Option<TypeAnnotation>, CompilerError>)
    requires
        old(token_stream).wf(),
    ensures
        final(token_stream).wf(),
        final(token_stream).tokens == old(token_stream).tokens,
        final(token_stream).pos >= old(token_stream).pos,
        !(old(token_stream).spec_peek() matches Some(t) && t.token_type is RightArrow) ==> r == Ok::<
            Option<TypeAnnotation>,
            CompilerError,
        >(None) && final(token_stream).pos == old(token_stream).pos,
        (old(token_stream).spec_peek() matches Some(t) && t.token_type is RightArrow) ==> {
            &&& r is Ok ==> (r matches Ok(Some(_))) && final(token_stream).pos > old(token_stream).pos + 1
            &&& r matches Ok(Some(ty)) ==> old(token_stream).tokens@.len() > old(token_stream).pos + 1
                && old(token_stream).tokens@[old(token_stream).pos + 1].token_type is Identifier
                && ty.type_symbol == old(token_stream).tokens@[old(token_stream).pos + 1].symbol
            &&& !(old(token_stream).tokens@.len() > old(token_stream).pos + 1
                && old(token_stream).tokens@[old(token_stream).pos + 1].token_type is Identifier) ==> r is Err
        },
{
    if token_stream.peek_matches(TokenType::RightArrow) {
        token_stream.next();
        let return_type = parse_type_annotation(token_stream)?;
        Ok(Some(return_type))
    } else {
        Ok(None)
    }
}

} // verus!
