[package]
name = "langc"
version = "0.1.0"
edition = "2021"
publish = false

[dependencies]
string-interner = "=0.20.0"
inkwell = { version = "=0.5.0", features = ["llvm14-0-prefer-dynamic"] }
