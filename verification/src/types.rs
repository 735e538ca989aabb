pub mod builtin_type;
pub mod data_type;
pub mod type_annotation;
