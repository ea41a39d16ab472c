[package]
name = "xjasper"
version = "0.1.0"
edition = "2021"
publish = false

[dependencies]
rust_decimal = "1.33"
serde = { version = "1.0", features = ["derive"] }
serde_json = "1.0"
printpdf = "0.7"
clap = { version = "4", features = ["derive"] }
anyhow = "1.0"
wasm-bindgen = "0.2"
thiserror = "1.0"
