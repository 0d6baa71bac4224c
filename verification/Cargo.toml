[package]
name = "md_ast"
version = "0.1.0"
edition = "2021"
publish = false

[dependencies]
pulldown-cmark = "*"
serde = { version = "1", features = ["derive"] }
wasm-bindgen = "*"
serde-wasm-bindgen = "*"
