pub mod binary_operators;
pub mod precedence;
pub mod unary_operators;
