use vstd::prelude::*;

verus! {

/// The unary operators of the expression grammar.
#[derive(Debug, Copy, Clone, PartialEq, Eq, Hash, Structural)]
pub enum UnaryOperator {
    Neg,
    Not,
    BitNot,
    PreInc,
    PreDec,
    PostInc,
    PostDec,
}

/// The source text of each unary operator.
pub open spec fn unary_operator_text(op: UnaryOperator) -> Seq<char> {
    match op {
        UnaryOperator::Neg => "-"@,
        UnaryOperator::Not => "!"@,
        UnaryOperator::BitNot => "~"@,
        UnaryOperator::PreInc => "++"@,
        UnaryOperator::PreDec => "--"@,
        UnaryOperator::PostInc => "++"@,
        UnaryOperator::PostDec => "--"@,
    }
}

impl UnaryOperator {
    /// The operator as it is written in source text.
    pub fn as_str(self) -> (r: &'static str)
        ensures
            r@ == unary_operator_text(self),
    {
        match self {
            UnaryOperator::Neg => "-",
            UnaryOperator::Not => "!",
            UnaryOperator::BitNot => "~",
            UnaryOperator::PreInc => "++",
            UnaryOperator::PreDec => "--",
            UnaryOperator::PostInc => "++",
            UnaryOperator::PostDec => "--",
        }
    }
}

} // verus!
