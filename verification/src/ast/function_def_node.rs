use vstd::prelude::*;
use crate::ast::block_body::Block;
use crate::source::source_span::SourceSpan;
use crate::types::type_annotation::TypeAnnotation;

verus! {

/// `fn name(params) -> return_type` with its body.
#[derive(Debug)]
pub struct FunctionDefNode {
    pub name: usize,
    pub params: Vec<Parameter>,
    pub body: Block,
    pub return_type: Option<TypeAnnotation>,
}

impl FunctionDefNode {
    pub fn new(name: usize, params: Vec<Parameter>, body: Block, return_type: Option<TypeAnnotation>) -> (r: Self)
        ensures
            r.name == name,
            r.params == params,
            r.body == body,
            r.return_type == return_type,
    {
        Self { name, params, body, return_type }
    }
}

/// A parameter: its name, its declared type and where it stands.
#[derive(Debug)]
pub struct Parameter {
    pub name: usize,
    pub type_annotation: TypeAnnotation,
    pub span: SourceSpan,
}

impl Parameter {
    pub fn new(name: usize, type_annotation: TypeAnnotation, span: SourceSpan) -> (r: Self)
        ensures
            r.name == name,
            r.type_annotation == type_annotation,
            r.span == span,
    {
        Self { name, type_annotation, span }
    }
}

} // verus!
