use vstd::prelude::*;
use crate::types::builtin_type::BuiltinType;

verus! {

/// Identifier of a type in a type arena: its index.
#[derive(Debug, Copy, Clone, PartialEq, Eq, Hash, Structural)]
pub struct DataTypeId(pub usize);

impl DataTypeId {
    pub fn as_usize(&self) -> (r: usize)
        ensures
            r == self.0,
    {
        self.0
    }
}

/// A type of the language. A user-defined type is named by an interned
/// symbol; a function type lists its parameter types and its return type.
#[derive(Debug)]
pub enum DataType {
    Builtin(BuiltinType),
    UserDefined(usize),
    Fn { param_types: Vec<DataTypeId>, return_type: DataTypeId },
}

/// The mathematical value of a `DataType`.
pub enum DataTypeView {
    Builtin(BuiltinType),
    UserDefined(usize),
    Fn { param_types: Seq<DataTypeId>, return_type: DataTypeId },
}

impl View for DataType {
    type V = DataTypeView;

    open spec fn view(&self) -> DataTypeView {
        match self {
            DataType::Builtin(b) => DataTypeView::Builtin(*b),
            DataType::UserDefined(s) => DataTypeView::UserDefined(*s),
            DataType::Fn { param_types, return_type } => DataTypeView::Fn {
                param_types: param_types@,
                return_type: *return_type,
            },
        }
    }
}

impl DataType {
    /// A copy of the type.
    pub fn copy_type(&self) -> (r: DataType)
        ensures
            r@ == self@,
    {
        match self {
            DataType::Builtin(b) => {
                let r = DataType::Builtin(*b);
                assert(r@ == self@);
                r
            },
            DataType::UserDefined(s) => DataType::UserDefined(*s),
            DataType::Fn { param_types, return_type } => {
                let mut params: Vec<DataTypeId> = Vec::new();
                let mut i: usize = 0;
                while i < param_types.len()
                    invariant
                        i <= param_types@.len(),
                        params@ == param_types@.subrange(0, i as int),
                    decreases param_types@.len() - i,
                {
                    params.push(param_types[i]);
                    i += 1;
                }
                assert(params@ =~= param_types@);
                DataType::Fn { param_types: params, return_type: *return_type }
            },
        }
    }

    /// Whether two types are the same type.
    pub fn same_as(&self, other: &DataType) -> (r: bool)
        ensures
            r == (self@ == other@),
    {
        match (self, other) {
            (DataType::Builtin(a), DataType::Builtin(b)) => *a == *b,
            (DataType::UserDefined(a), DataType::UserDefined(b)) => *a == *b,
            (
                DataType::Fn { param_types: pa, return_type: ra },
                DataType::Fn { param_types: pb, return_type: rb },
            ) => {
                if ra.0 != rb.0 || pa.len() != pb.len() {
                    return false;
                }
                let mut i: usize = 0;
                while i < pa.len()
                    invariant
                        pa@.len() == pb@.len(),
                        self@ == (DataTypeView::Fn { param_types: pa@, return_type: *ra }),
                        other@ == (DataTypeView::Fn { param_types: pb@, return_type: *rb }),
                        i <= pa@.len(),
                        forall|j: int| 0 <= j < i ==> pa@[j] == pb@[j],
                    decreases pa@.len() - i,
                {
                    if pa[i].0 != pb[i].0 {
                        assert(pa@[i as int] != pb@[i as int]);
                        return false;
                    }
                    i += 1;
                }
                assert(pa@ =~= pb@);
                true
            },
            _ => false,
        }
    }
}

} // verus!
