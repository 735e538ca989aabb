use vstd::prelude::*;
use crate::text::str_equals;

verus! {

/// The types the language provides without declaration. Their order fixes
/// the identifiers they receive in a type arena.
#[derive(Debug, Copy, Clone, PartialEq, Eq, Structural)]
pub enum BuiltinType {
    Unit,
    Bool,
    Int,
    String,
}

/// Position of a builtin type in the declaration order, starting at 0.
pub open spec fn builtin_index(t: BuiltinType) -> usize {
    match t {
        BuiltinType::Unit => 0,
        BuiltinType::Bool => 1,
        BuiltinType::Int => 2,
        BuiltinType::String => 3,
    }
}

/// The builtin type at a given position of the declaration order.
pub open spec fn builtin_at(i: int) -> BuiltinType {
    if i == 0 {
        BuiltinType::Unit
    } else if i == 1 {
        BuiltinType::Bool
    } else if i == 2 {
        BuiltinType::Int
    } else {
        BuiltinType::String
    }
}

/// Number of builtin types.
pub open spec fn builtin_count() -> nat {
    4
}

/// The builtin type that a type name written in source denotes, if any.
/// `unit` has no source name.
pub open spec fn builtin_from_name(s: Seq<char>) -> Option<BuiltinType> {
    if s == "bool"@ {
        Some(BuiltinType::Bool)
    } else if s == "int"@ {
        Some(BuiltinType::Int)
    } else if s == "str"@ {
        Some(BuiltinType::String)
    } else {
        None
    }
}

/// The display name of a builtin type.
pub open spec fn builtin_name(t: BuiltinType) -> Seq<char> {
    match t {
        BuiltinType::Unit => "unit"@,
        BuiltinType::Bool => "bool"@,
        BuiltinType::Int => "int"@,
        BuiltinType::String => "str"@,
    }
}

impl BuiltinType {
    pub fn as_usize(self) -> (r: usize)
        ensures
            r == builtin_index(self),
    {
        match self {
            BuiltinType::Unit => 0,
            BuiltinType::Bool => 1,
            BuiltinType::Int => 2,
            BuiltinType::String => 3,
        }
    }

    pub fn from_str(s: &str) -> (r: Option<BuiltinType>)
        ensures
            r == builtin_from_name(s@),
    {
        if str_equals(s, "bool") {
            Some(BuiltinType::Bool)
        } else if str_equals(s, "int") {
            Some(BuiltinType::Int)
        } else if str_equals(s, "str") {
            Some(BuiltinType::String)
        } else {
            None
        }
    }

    /// The display name of the type.
    pub fn name(self) -> (r: &'static str)
        ensures
            r@ == builtin_name(self),
    {
        match self {
            BuiltinType::Unit => "unit",
            BuiltinType::Bool => "bool",
            BuiltinType::Int => "int",
            BuiltinType::String => "str",
        }
    }

    /// All builtin types in declaration order.
    pub fn all() -> (r: Vec<BuiltinType>)
        ensures
            r@.len() == builtin_count(),
            forall|i: int| 0 <= i < r@.len() ==> r@[i] == builtin_at(i),
    {
        vec![BuiltinType::Unit, BuiltinType::Bool, BuiltinType::Int, BuiltinType::String]
    }
}

/// `builtin_at` and `builtin_index` are inverse to each other.
pub proof fn lemma_builtin_index_roundtrip(t: BuiltinType)
    ensures
        builtin_at(builtin_index(t) as int) == t,
        builtin_index(t) < builtin_count(),
{
}

/// Reading back the display name of a type that has a source name gives the
/// type again.
pub proof fn lemma_builtin_name_roundtrip(t: BuiltinType)
    ensures
        t != BuiltinType::Unit ==> builtin_from_name(builtin_name(t)) == Some(t),
{
    reveal_strlit("bool");
    reveal_strlit("int");
    reveal_strlit("str");
    reveal_strlit("unit");
    assert("int"@.len() != "bool"@.len());
    assert("str"@.len() != "bool"@.len());
    assert("str"@[0] != "int"@[0]);
}

} // verus!
