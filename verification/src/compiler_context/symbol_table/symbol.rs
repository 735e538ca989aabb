use vstd::prelude::*;
use crate::source::source_span::SourceSpan;
use crate::types::data_type::DataTypeId;

verus! {

/// Identifier of a symbol, unique within a symbol table.
#[derive(Debug, Copy, Clone, PartialEq, Eq, Hash, Structural)]
pub struct SymbolId(pub usize);

impl SymbolId {
    pub fn new(id: usize) -> (r: Self)
        ensures
            r.0 == id,
    {
        Self(id)
    }
}

/// A named entity of a scope: a variable, a function or a function
/// parameter, with its type once known.
#[derive(Debug, Copy, Clone, PartialEq, Eq, Structural)]
pub struct Symbol {
    pub id: SymbolId,
    pub name: usize,
    pub data_type_id: Option<DataTypeId>,
    pub func_param_index: Option<usize>,
    pub def_span: SourceSpan,
}

impl Symbol {
    pub fn new(id: SymbolId, name: usize, func_param_index: Option<usize>, def_span: SourceSpan) -> (r: Self)
        ensures
            r == (Symbol { id, name, data_type_id: None, func_param_index, def_span }),
    {
        Self { id, name, def_span, func_param_index, data_type_id: None }
    }

    /// The type of the symbol, which must be known.
    pub fn data_type_id(&self) -> (r: DataTypeId)
        requires
            self.data_type_id is Some,
        ensures
            r == self.data_type_id->0,
    {
        self.data_type_id.unwrap()
    }
}

} // verus!
