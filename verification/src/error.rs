pub mod spanned_error;
