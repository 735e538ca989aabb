use vstd::prelude::*;
use crate::source::source_span::SourceSpan;

verus! {

/// A type as written in source: a name, its type arguments, and where it
/// stands.
#[derive(Debug)]
pub struct TypeAnnotation {
    pub type_symbol: usize,
    pub inner_types: Vec<TypeAnnotation>,
    pub span: SourceSpan,
}

impl TypeAnnotation {
    pub fn new(type_symbol: usize, span: SourceSpan) -> (r: Self)
        ensures
            r.type_symbol == type_symbol,
            r.inner_types@.len() == 0,
            r.span == span,
    {
        Self { type_symbol, inner_types: Vec::new(), span }
    }

    pub fn with_params(type_symbol: usize, inner_types: Vec<TypeAnnotation>, span: SourceSpan) -> (r: Self)
        ensures
            r.type_symbol == type_symbol,
            r.inner_types == inner_types,
            r.span == span,
    {
        Self { type_symbol, inner_types, span }
    }
}

} // verus!
