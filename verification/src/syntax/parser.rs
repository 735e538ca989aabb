pub mod token_stream;
pub mod type_annotation;
pub mod expression;
pub mod statement;
pub mod function_signature;
pub mod ast_parser;
