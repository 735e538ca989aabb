pub mod source_file;
pub mod source_span;
