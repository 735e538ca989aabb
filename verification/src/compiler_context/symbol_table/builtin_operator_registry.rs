use vstd::prelude::*;
use crate::compiler_context::type_arena::TypeArena;
use crate::operators::binary_operators::BinaryOperator;
use crate::operators::unary_operators::UnaryOperator;
use crate::types::builtin_type::{BuiltinType, builtin_index};
use crate::types::data_type::{DataType, DataTypeId, DataTypeView};

verus! {

/// The builtin type of type `id` of an arena, if it is a builtin type.
pub open spec fn builtin_of(types: Seq<DataTypeView>, id: DataTypeId) -> Option<BuiltinType> {
    match types[id.0 as int] {
        DataTypeView::Builtin(b) => Some(b),
        _ => None,
    }
}

/// The result type of a unary operator on a builtin operand type.
pub open spec fn unary_builtin_result(op: UnaryOperator, operand: BuiltinType) -> Option<BuiltinType> {
    match op {
        UnaryOperator::Not => if operand is Bool {
            Some(BuiltinType::Bool)
        } else {
            None
        },
        _ => if operand is Int {
            Some(BuiltinType::Int)
        } else {
            None
        },
    }
}

/// The result type of a binary operator on builtin operand types.
pub open spec fn binary_builtin_result(op: BinaryOperator, l: BuiltinType, r: BuiltinType) -> Option<BuiltinType> {
    match op {
        BinaryOperator::AddAssign | BinaryOperator::SubAssign | BinaryOperator::MulAssign
        | BinaryOperator::DivAssign | BinaryOperator::ModAssign | BinaryOperator::LeftShiftAssign
        | BinaryOperator::RightShiftAssign | BinaryOperator::AndAssign | BinaryOperator::XorAssign
        | BinaryOperator::OrAssign | BinaryOperator::Sub | BinaryOperator::Mul | BinaryOperator::Div
        | BinaryOperator::Mod | BinaryOperator::BitAnd | BinaryOperator::BitOr | BinaryOperator::BitXor
        | BinaryOperator::LeftShift | BinaryOperator::RightShift => if l is Int && r is Int {
            Some(BuiltinType::Int)
        } else {
            None
        },
        BinaryOperator::Add => if l is Int && r is Int {
            Some(BuiltinType::Int)
        } else if l is String && r is String {
            Some(BuiltinType::String)
        } else {
            None
        },
        BinaryOperator::Equal | BinaryOperator::NotEquals => if l == r {
            Some(BuiltinType::Bool)
        } else {
            None
        },
        BinaryOperator::LessThan | BinaryOperator::LessOrEqual | BinaryOperator::GreaterThan
        | BinaryOperator::GreaterOrEqual => if (l is Int && r is Int) || (l is String && r is String) {
            Some(BuiltinType::Bool)
        } else {
            None
        },
        BinaryOperator::LogicalAnd | BinaryOperator::LogicalOr => if l is Bool && r is Bool {
            Some(BuiltinType::Bool)
        } else {
            None
        },
        _ => None,
    }
}

/// The identifier of a builtin type in a well-formed arena.
pub open spec fn builtin_id(t: BuiltinType) -> DataTypeId {
    DataTypeId(builtin_index(t))
}

/// The type of a unary operation on operand type `operand`.
pub open spec fn unary_operation_type(op: UnaryOperator, operand: DataTypeId, types: Seq<DataTypeView>) -> Option<DataTypeId> {
    match builtin_of(types, operand) {
        Some(b) => match unary_builtin_result(op, b) {
            Some(t) => Some(builtin_id(t)),
            None => None,
        },
        None => None,
    }
}

/// The type of a binary operation. Assigning a value of the variable's own
/// type and the comma operator give the right operand's type, whatever it
/// is; the other rules apply to builtin types only.
pub open spec fn binary_operation_type(op: BinaryOperator, operands: (DataTypeId, DataTypeId), types: Seq<DataTypeView>) -> Option<DataTypeId> {
    if op is Assign && operands.0 == operands.1 {
        Some(operands.1)
    } else if op is CommaOperator {
        Some(operands.1)
    } else {
        match (builtin_of(types, operands.0), builtin_of(types, operands.1)) {
            (Some(l), Some(r)) => match binary_builtin_result(op, l, r) {
                Some(t) => Some(builtin_id(t)),
                None => None,
            },
            _ => None,
        }
    }
}

/// Operators whose result type on builtin operand types is fixed by the
/// language.
pub trait BuiltinOperatorRegistry: Sized {
    type Operands;

    /// The operand types are types of the arena.
    spec fn operands_within(operands: Self::Operands, len: nat) -> bool;

    /// The operand types the operator looks up are types of the arena
    /// `types`.
    spec fn operands_read(&self, operands: Self::Operands, types: Seq<DataTypeView>) -> bool;

    /// The result type of the operator on these operand types, if the
    /// language defines one.
    spec fn spec_builtin_operations(&self, operands: Self::Operands, types: Seq<DataTypeView>) -> Option<DataTypeId>;

    fn builtin_operations(&self, operands: &Self::Operands, type_arena: &TypeArena) -> (r: Option<DataTypeId>)
        requires
            type_arena.wf(),
            self.operands_read(*operands, type_arena.types_view()),
        ensures
            r == self.spec_builtin_operations(*operands, type_arena.types_view()),
            Self::operands_within(*operands, type_arena.data_types@.len()) ==> (r matches Some(id) ==> id.0
                < type_arena.data_types@.len()),
    ;

    /// Whether two (operator, operands) pairs are the same.
    fn same_operation(&self, operands: &Self::Operands, other: &Self, other_operands: &Self::Operands) -> (r: bool)
        ensures
            r == (*self == *other && *operands == *other_operands),
    ;
}

fn builtin_of_exec(type_arena: &TypeArena, id: DataTypeId) -> (r: Option<BuiltinType>)
    requires
        id.0 < type_arena.data_types@.len(),
    ensures
        r == builtin_of(type_arena.types_view(), id),
{
    match type_arena.get_data_type(id) {
        DataType::Builtin(b) => Some(*b),
        _ => None,
    }
}

impl BuiltinOperatorRegistry for UnaryOperator {
    type Operands = DataTypeId;

    open spec fn operands_read(&self, operands: DataTypeId, types: Seq<DataTypeView>) -> bool {
        operands.0 < types.len()
    }

    open spec fn operands_within(operands: DataTypeId, len: nat) -> bool {
        operands.0 < len
    }

    open spec fn spec_builtin_operations(&self, operands: DataTypeId, types: Seq<DataTypeView>) -> Option<DataTypeId> {
        unary_operation_type(*self, operands, types)
    }

    fn builtin_operations(&self, operand_type_id: &DataTypeId, type_arena: &TypeArena) -> (r: Option<DataTypeId>) {
        let operand_type = match builtin_of_exec(type_arena, *operand_type_id) {
            Some(b) => b,
            None => return None,
        };
        let builtin_type = match self {
            UnaryOperator::Neg => match operand_type {
                BuiltinType::Int => BuiltinType::Int,
                _ => return None,
            },
            UnaryOperator::Not => match operand_type {
                BuiltinType::Bool => BuiltinType::Bool,
                _ => return None,
            },
            UnaryOperator::BitNot | UnaryOperator::PreInc | UnaryOperator::PreDec | UnaryOperator::PostInc
            | UnaryOperator::PostDec => match operand_type {
                BuiltinType::Int => BuiltinType::Int,
                _ => return None,
            },
        };
        Some(type_arena.builtin_type_id(builtin_type))
    }

    fn same_operation(&self, operands: &DataTypeId, other: &UnaryOperator, other_operands: &DataTypeId) -> (r: bool) {
        *self == *other && operands.0 == other_operands.0
    }
}

impl BuiltinOperatorRegistry for BinaryOperator {
    type Operands = (DataTypeId, DataTypeId);

    open spec fn operands_within(operands: (DataTypeId, DataTypeId), len: nat) -> bool {
        operands.0.0 < len && operands.1.0 < len
    }

    /// The comma operator, and assignment between equal types, give the
    /// right operand's type without looking it up; otherwise the left type
    /// is looked up, and the right one only when the left one is builtin.
    open spec fn operands_read(&self, operands: (DataTypeId, DataTypeId), types: Seq<DataTypeView>) -> bool {
        ||| *self is CommaOperator
        ||| (*self is Assign && operands.0 == operands.1)
        ||| (operands.0.0 < types.len() && (builtin_of(types, operands.0) is Some ==> operands.1.0 < types.len()))
    }

    open spec fn spec_builtin_operations(&self, operands: (DataTypeId, DataTypeId), types: Seq<DataTypeView>) -> Option<DataTypeId> {
        binary_operation_type(*self, operands, types)
    }

    fn builtin_operations(&self, operand_ids: &(DataTypeId, DataTypeId), type_arena: &TypeArena) -> (r: Option<DataTypeId>) {
        let (lhs_type_id, rhs_type_id) = *operand_ids;
        if *self == BinaryOperator::Assign && lhs_type_id.0 == rhs_type_id.0 {
            return Some(rhs_type_id);
        } else if *self == BinaryOperator::CommaOperator {
            return Some(rhs_type_id);
        }
        let lhs_type = match builtin_of_exec(type_arena, lhs_type_id) {
            Some(b) => b,
            None => return None,
        };
        let rhs_type = match builtin_of_exec(type_arena, rhs_type_id) {
            Some(b) => b,
            None => return None,
        };
        let int_pair = lhs_type == BuiltinType::Int && rhs_type == BuiltinType::Int;
        let str_pair = lhs_type == BuiltinType::String && rhs_type == BuiltinType::String;
        let bool_pair = lhs_type == BuiltinType::Bool && rhs_type == BuiltinType::Bool;
        let builtin_type_res = match self {
            BinaryOperator::AddAssign | BinaryOperator::SubAssign | BinaryOperator::MulAssign
            | BinaryOperator::DivAssign | BinaryOperator::ModAssign => if int_pair {
                BuiltinType::Int
            } else {
                return None
            },
            BinaryOperator::LeftShiftAssign | BinaryOperator::RightShiftAssign => if int_pair {
                BuiltinType::Int
            } else {
                return None
            },
            BinaryOperator::AndAssign | BinaryOperator::XorAssign | BinaryOperator::OrAssign => if int_pair {
                BuiltinType::Int
            } else {
                return None
            },
            BinaryOperator::Add => if int_pair {
                BuiltinType::Int
            } else if str_pair {
                BuiltinType::String
            } else {
                return None
            },
            BinaryOperator::Sub | BinaryOperator::Mul | BinaryOperator::Div | BinaryOperator::Mod => if int_pair {
                BuiltinType::Int
            } else {
                return None
            },
            BinaryOperator::BitAnd | BinaryOperator::BitOr | BinaryOperator::BitXor | BinaryOperator::LeftShift
            | BinaryOperator::RightShift => if int_pair {
                BuiltinType::Int
            } else {
                return None
            },
            BinaryOperator::Equal | BinaryOperator::NotEquals => if lhs_type == rhs_type {
                BuiltinType::Bool
            } else {
                return None
            },
            BinaryOperator::LessThan | BinaryOperator::LessOrEqual | BinaryOperator::GreaterThan
            | BinaryOperator::GreaterOrEqual => if int_pair || str_pair {
                BuiltinType::Bool
            } else {
                return None
            },
            BinaryOperator::LogicalAnd | BinaryOperator::LogicalOr => if bool_pair {
                BuiltinType::Bool
            } else {
                return None
            },
            _ => return None,
        };
        Some(type_arena.builtin_type_id(builtin_type_res))
    }

    fn same_operation(
        &self,
        operands: &(DataTypeId, DataTypeId),
        other: &BinaryOperator,
        other_operands: &(DataTypeId, DataTypeId),
    ) -> (r: bool) {
        *self == *other && operands.0.0 == other_operands.0.0 && operands.1.0 == other_operands.1.0
    }
}

/// The comparison operators give `bool` on two operands of one builtin type
/// exactly when the operator applies to them; arithmetic on `int` stays in
/// `int`.
pub proof fn lemma_comparison_results(op: BinaryOperator, t: BuiltinType)
    ensures
        (op is Equal || op is NotEquals) ==> binary_builtin_result(op, t, t) == Some(BuiltinType::Bool),
        (op is Add || op is Sub || op is Mul || op is Div || op is Mod) ==> binary_builtin_result(
            op,
            BuiltinType::Int,
            BuiltinType::Int,
        ) == Some(BuiltinType::Int),
        binary_builtin_result(op, t, t) matches Some(r) ==> (r == t || r is Bool),
{
}


/// Unary operators keep their operand's type: `!` applies to booleans and
/// to nothing else; negation, bitwise not and the increments and decrements
/// apply to integers and to nothing else; each gives the type of its
/// operand.
pub proof fn lemma_unary_operators_keep_their_type(op: UnaryOperator, t: BuiltinType)
    ensures
        unary_builtin_result(op, t) is Some <==> (if op is Not {
            t is Bool
        } else {
            t is Int
        }),
        unary_builtin_result(op, t) matches Some(r) ==> r == t,
{
}

/// The prefix and postfix forms of an increment or decrement are typed
/// alike, and so are negation and bitwise not.
pub proof fn lemma_unary_forms_agree(t: BuiltinType)
    ensures
        unary_builtin_result(UnaryOperator::PreInc, t) == unary_builtin_result(UnaryOperator::PostInc, t),
        unary_builtin_result(UnaryOperator::PreDec, t) == unary_builtin_result(UnaryOperator::PostDec, t),
        unary_builtin_result(UnaryOperator::Neg, t) == unary_builtin_result(UnaryOperator::BitNot, t),
        unary_builtin_result(UnaryOperator::Neg, t) == unary_builtin_result(UnaryOperator::PreInc, t),
{
}

/// `+` adds two integers and concatenates two strings, giving the type of
/// its operands, and applies to nothing else; the ordering comparisons
/// apply to exactly the same operands and give a boolean; `==` and `!=`
/// compare two operands of any one builtin type; `&&` and `||` join two
/// booleans; every other arithmetic or bitwise operator, and every compound
/// assignment, applies to two integers alone and gives an integer.
pub proof fn lemma_binary_operator_types(op: BinaryOperator, l: BuiltinType, r: BuiltinType)
    ensures
        binary_builtin_result(BinaryOperator::Add, l, r) is Some <==> (l == r && (l is Int || l is String)),
        binary_builtin_result(BinaryOperator::Add, l, r) matches Some(t) ==> t == l && t == r,
        (op is LessThan || op is LessOrEqual || op is GreaterThan || op is GreaterOrEqual) ==> (
            binary_builtin_result(op, l, r) is Some <==> binary_builtin_result(BinaryOperator::Add, l, r) is Some),
        (op is LessThan || op is LessOrEqual || op is GreaterThan || op is GreaterOrEqual || op is Equal || op is NotEquals
            || op is LogicalAnd || op is LogicalOr) ==> (binary_builtin_result(op, l, r) matches Some(t) ==> t is Bool),
        (op is Equal || op is NotEquals) ==> (binary_builtin_result(op, l, r) is Some <==> l == r),
        (op is LogicalAnd || op is LogicalOr) ==> (binary_builtin_result(op, l, r) is Some <==> (l is Bool && r is Bool)),
        (op is Sub || op is Mul || op is Div || op is Mod || op is BitAnd || op is BitOr || op is BitXor || op is LeftShift
            || op is RightShift || op is AddAssign || op is SubAssign || op is MulAssign || op is DivAssign || op is ModAssign
            || op is LeftShiftAssign || op is RightShiftAssign || op is AndAssign || op is XorAssign || op is OrAssign) ==> (
            binary_builtin_result(op, l, r) is Some <==> (l is Int && r is Int)) && (binary_builtin_result(op, l, r) matches Some(t)
            ==> t is Int),
        (op is AddAssign || op is SubAssign || op is MulAssign || op is DivAssign || op is ModAssign) ==> (
            binary_builtin_result(op, l, r) matches Some(t) ==> binary_builtin_result(BinaryOperator::Add, l, r) == Some(t)),
{
}


/// Assigning a value to a variable of the same type gives that type,
/// whatever it is, and assigning a value of another type is refused; the
/// comma operator gives its right operand's type; every other operator, and
/// every unary operator, applies to builtin types only.
pub proof fn lemma_operation_types(op: BinaryOperator, uop: UnaryOperator, a: DataTypeId, b: DataTypeId, types: Seq<DataTypeView>)
    ensures
        binary_operation_type(BinaryOperator::Assign, (a, a), types) == Some(a),
        a != b ==> binary_operation_type(BinaryOperator::Assign, (a, b), types) is None,
        binary_operation_type(BinaryOperator::CommaOperator, (a, b), types) == Some(b),
        (!(op is Assign) && !(op is CommaOperator) && (builtin_of(types, a) is None || builtin_of(types, b) is None))
            ==> binary_operation_type(op, (a, b), types) is None,
        builtin_of(types, a) is None ==> unary_operation_type(uop, a, types) is None,
{
}

} // verus!
