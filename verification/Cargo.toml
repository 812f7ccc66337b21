[package]
name = "doc_routes"
version = "0.1.0"
edition = "2021"
publish = false

[dependencies]
comemo = "0.4"
ecow = "0.2"
log = "0.4"
serde = { version = "1", features = ["derive"] }
serde_yaml = "0.9"
typst = "0.13"
typst-eval = "0.13"
unscanny = "0.1"
