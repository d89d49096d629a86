[package]
name = "module_resolver"
version = "0.1.0"
edition = "2021"
publish = false

[dependencies]
serde_json = "1"
fs-err = "*"
swc_core = { version = "*", default-features = false, features = ["common", "ecma_ast", "ecma_visit", "ecma_parser", "ecma_codegen"] }

[dev-dependencies]
tempfile = "3"
