use vstd::prelude::*;
use crate::operators::precedence::OperatorPrecedenceGroup;

verus! {

/// The binary operators of the expression grammar.
#[derive(Debug, Copy, Clone, PartialEq, Eq, Hash, Structural)]
pub enum BinaryOperator {
    Assign,
    AddAssign,
    SubAssign,
    MulAssign,
    DivAssign,
    ModAssign,
    LeftShiftAssign,
    RightShiftAssign,
    AndAssign,
    XorAssign,
    OrAssign,
    Add,
    Sub,
    Mul,
    Div,
    Mod,
    BitAnd,
    BitOr,
    BitXor,
    LeftShift,
    RightShift,
    Equal,
    NotEquals,
    LessThan,
    LessOrEqual,
    GreaterThan,
    GreaterOrEqual,
    LogicalAnd,
    LogicalOr,
    CommaOperator,
}

/// The precedence group of each binary operator.
pub open spec fn binary_precedence_group(op: BinaryOperator) -> OperatorPrecedenceGroup {
    match op {
        BinaryOperator::Assign => OperatorPrecedenceGroup::Assign,
        BinaryOperator::AddAssign => OperatorPrecedenceGroup::Assign,
        BinaryOperator::SubAssign => OperatorPrecedenceGroup::Assign,
        BinaryOperator::MulAssign => OperatorPrecedenceGroup::Assign,
        BinaryOperator::DivAssign => OperatorPrecedenceGroup::Assign,
        BinaryOperator::ModAssign => OperatorPrecedenceGroup::Assign,
        BinaryOperator::LeftShiftAssign => OperatorPrecedenceGroup::Assign,
        BinaryOperator::RightShiftAssign => OperatorPrecedenceGroup::Assign,
        BinaryOperator::AndAssign => OperatorPrecedenceGroup::Assign,
        BinaryOperator::XorAssign => OperatorPrecedenceGroup::Assign,
        BinaryOperator::OrAssign => OperatorPrecedenceGroup::Assign,
        BinaryOperator::Add => OperatorPrecedenceGroup::Add,
        BinaryOperator::Sub => OperatorPrecedenceGroup::Add,
        BinaryOperator::Mul => OperatorPrecedenceGroup::Mul,
        BinaryOperator::Div => OperatorPrecedenceGroup::Mul,
        BinaryOperator::Mod => OperatorPrecedenceGroup::Mul,
        BinaryOperator::BitAnd => OperatorPrecedenceGroup::BitAnd,
        BinaryOperator::BitOr => OperatorPrecedenceGroup::BitOr,
        BinaryOperator::BitXor => OperatorPrecedenceGroup::BitXor,
        BinaryOperator::LeftShift => OperatorPrecedenceGroup::BitShift,
        BinaryOperator::RightShift => OperatorPrecedenceGroup::BitShift,
        BinaryOperator::Equal => OperatorPrecedenceGroup::Equality,
        BinaryOperator::NotEquals => OperatorPrecedenceGroup::Equality,
        BinaryOperator::LessThan => OperatorPrecedenceGroup::Relational,
        BinaryOperator::LessOrEqual => OperatorPrecedenceGroup::Relational,
        BinaryOperator::GreaterThan => OperatorPrecedenceGroup::Relational,
        BinaryOperator::GreaterOrEqual => OperatorPrecedenceGroup::Relational,
        BinaryOperator::LogicalAnd => OperatorPrecedenceGroup::LogicalAnd,
        BinaryOperator::LogicalOr => OperatorPrecedenceGroup::LogicalOr,
        BinaryOperator::CommaOperator => OperatorPrecedenceGroup::Comma,
    }
}

/// The source text of each binary operator.
pub open spec fn binary_operator_text(op: BinaryOperator) -> Seq<char> {
    match op {
        BinaryOperator::Assign => "="@,
        BinaryOperator::AddAssign => "+="@,
        BinaryOperator::SubAssign => "-="@,
        BinaryOperator::MulAssign => "*="@,
        BinaryOperator::DivAssign => "/="@,
        BinaryOperator::ModAssign => "%="@,
        BinaryOperator::LeftShiftAssign => "<<="@,
        BinaryOperator::RightShiftAssign => ">>="@,
        BinaryOperator::AndAssign => "&="@,
        BinaryOperator::XorAssign => "^="@,
        BinaryOperator::OrAssign => "|="@,
        BinaryOperator::Add => "+"@,
        BinaryOperator::Sub => "-"@,
        BinaryOperator::Mul => "*"@,
        BinaryOperator::Div => "/"@,
        BinaryOperator::Mod => "%"@,
        BinaryOperator::BitAnd => "&"@,
        BinaryOperator::BitOr => "|"@,
        BinaryOperator::BitXor => "^"@,
        BinaryOperator::LeftShift => "<<"@,
        BinaryOperator::RightShift => ">>"@,
        BinaryOperator::Equal => "=="@,
        BinaryOperator::NotEquals => "!="@,
        BinaryOperator::LessThan => "<"@,
        BinaryOperator::LessOrEqual => "<="@,
        BinaryOperator::GreaterThan => ">"@,
        BinaryOperator::GreaterOrEqual => ">="@,
        BinaryOperator::LogicalAnd => "&&"@,
        BinaryOperator::LogicalOr => "||"@,
        BinaryOperator::CommaOperator => ","@,
    }
}

impl BinaryOperator {
    pub fn precedence_group(self) -> (r: OperatorPrecedenceGroup)
        ensures
            r == binary_precedence_group(self),
    {
        match self {
            BinaryOperator::Assign => OperatorPrecedenceGroup::Assign,
            BinaryOperator::AddAssign => OperatorPrecedenceGroup::Assign,
            BinaryOperator::SubAssign => OperatorPrecedenceGroup::Assign,
            BinaryOperator::MulAssign => OperatorPrecedenceGroup::Assign,
            BinaryOperator::DivAssign => OperatorPrecedenceGroup::Assign,
            BinaryOperator::ModAssign => OperatorPrecedenceGroup::Assign,
            BinaryOperator::LeftShiftAssign => OperatorPrecedenceGroup::Assign,
            BinaryOperator::RightShiftAssign => OperatorPrecedenceGroup::Assign,
            BinaryOperator::AndAssign => OperatorPrecedenceGroup::Assign,
            BinaryOperator::XorAssign => OperatorPrecedenceGroup::Assign,
            BinaryOperator::OrAssign => OperatorPrecedenceGroup::Assign,
            BinaryOperator::Add => OperatorPrecedenceGroup::Add,
            BinaryOperator::Sub => OperatorPrecedenceGroup::Add,
            BinaryOperator::Mul => OperatorPrecedenceGroup::Mul,
            BinaryOperator::Div => OperatorPrecedenceGroup::Mul,
            BinaryOperator::Mod => OperatorPrecedenceGroup::Mul,
            BinaryOperator::BitAnd => OperatorPrecedenceGroup::BitAnd,
            BinaryOperator::BitOr => OperatorPrecedenceGroup::BitOr,
            BinaryOperator::BitXor => OperatorPrecedenceGroup::BitXor,
            BinaryOperator::LeftShift => OperatorPrecedenceGroup::BitShift,
            BinaryOperator::RightShift => OperatorPrecedenceGroup::BitShift,
            BinaryOperator::Equal => OperatorPrecedenceGroup::Equality,
            BinaryOperator::NotEquals => OperatorPrecedenceGroup::Equality,
            BinaryOperator::LessThan => OperatorPrecedenceGroup::Relational,
            BinaryOperator::LessOrEqual => OperatorPrecedenceGroup::Relational,
            BinaryOperator::GreaterThan => OperatorPrecedenceGroup::Relational,
            BinaryOperator::GreaterOrEqual => OperatorPrecedenceGroup::Relational,
            BinaryOperator::LogicalAnd => OperatorPrecedenceGroup::LogicalAnd,
            BinaryOperator::LogicalOr => OperatorPrecedenceGroup::LogicalOr,
            BinaryOperator::CommaOperator => OperatorPrecedenceGroup::Comma,
        }
    }

    /// The operator as it is written in source text.
    pub fn as_str(self) -> (r: &'static str)
        ensures
            r@ == binary_operator_text(self),
    {
        match self {
            BinaryOperator::Assign => "=",
            BinaryOperator::AddAssign => "+=",
            BinaryOperator::SubAssign => "-=",
            BinaryOperator::MulAssign => "*=",
            BinaryOperator::DivAssign => "/=",
            BinaryOperator::ModAssign => "%=",
            BinaryOperator::LeftShiftAssign => "<<=",
            BinaryOperator::RightShiftAssign => ">>=",
            BinaryOperator::AndAssign => "&=",
            BinaryOperator::XorAssign => "^=",
            BinaryOperator::OrAssign => "|=",
            BinaryOperator::Add => "+",
            BinaryOperator::Sub => "-",
            BinaryOperator::Mul => "*",
            BinaryOperator::Div => "/",
            BinaryOperator::Mod => "%",
            BinaryOperator::BitAnd => "&",
            BinaryOperator::BitOr => "|",
            BinaryOperator::BitXor => "^",
            BinaryOperator::LeftShift => "<<",
            BinaryOperator::RightShift => ">>",
            BinaryOperator::Equal => "==",
            BinaryOperator::NotEquals => "!=",
            BinaryOperator::LessThan => "<",
            BinaryOperator::LessOrEqual => "<=",
            BinaryOperator::GreaterThan => ">",
            BinaryOperator::GreaterOrEqual => ">=",
            BinaryOperator::LogicalAnd => "&&",
            BinaryOperator::LogicalOr => "||",
            BinaryOperator::CommaOperator => ",",
        }
    }
}

/// The assignment group holds exactly the assignment operators, and no
/// binary operator is in the prefix or postfix group.
pub proof fn lemma_assignment_operators(op: BinaryOperator)
    ensures
        (binary_precedence_group(op) is Assign) <==> (op is Assign || op is AddAssign || op is SubAssign
            || op is MulAssign || op is DivAssign || op is ModAssign || op is LeftShiftAssign
            || op is RightShiftAssign || op is AndAssign || op is XorAssign || op is OrAssign),
        !(binary_precedence_group(op) is Prefix) && !(binary_precedence_group(op) is Postfix),
{
}

} // verus!
