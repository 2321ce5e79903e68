[package]
name = "js_instrumentation"
version = "0.1.0"
edition = "2021"
publish = false

[dependencies]
html-escape = "=0.2.15"
data-url = "=0.3.2"
sourcemap = "=9.3.2"
swc_atoms = "=10.0.0"
swc_common = "=26.0.0"
swc_ecma_ast = "=29.0.2"
swc_ecma_parser = "=45.1.6"
swc_ecma_visit = "=29.0.0"
serde = { version = "=1.0.229", features = ["derive"] }
wasm-bindgen = "=0.2.92"
serde-wasm-bindgen = "=0.6.5"
