pub mod access_node;
pub mod arena_ast;
pub mod ast_node;
pub mod block_body;
pub mod for_node;
pub mod function_call_node;
pub mod function_def_node;
pub mod if_node;
pub mod index_node;
pub mod operator_nodes;
pub mod while_node;
