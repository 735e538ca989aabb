pub mod global_string_interner;
pub mod scope;
pub mod symbol_table;
pub mod type_arena;
pub mod context;
