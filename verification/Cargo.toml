[package]
name = "visurx"
version = "0.1.0"
edition = "2021"
publish = false

[dependencies]
oxc_allocator = "=0.141.0"
oxc_ast = "=0.141.0"
oxc_ast_visit = "=0.141.0"
oxc_cfg = "=0.141.0"
oxc_parser = "=0.141.0"
oxc_semantic = { version = "=0.141.0", features = ["cfg"] }
oxc_span = "=0.141.0"
oxc_syntax = "=0.141.0"
oxc_resolver = "=11.23.0"
petgraph = "=0.8.3"
prost = "=0.14.4"
serde = { version = "=1.0.229", features = ["derive"] }
serde_json = "=1.0.154"
serde_yaml = "=0.9.34"
thiserror = "=2.0.21"
walkdir = "=2.5.0"
zip = { version = "=2.6.1", default-features = false, features = ["deflate"] }
wasm-bindgen = "=0.2.130"
console_error_panic_hook = "=0.1.7"
