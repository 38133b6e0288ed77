[package]
name = "sway_analyzer"
version = "0.1.0"
edition = "2021"
publish = false

[dependencies]
colored = "*"
serde = { version = "*", features = ["derive"] }
serde_json = "*"
structopt = "*"
sway-ast = "*"
sway-error = "*"
sway-parse = "*"
sway-types = "*"
