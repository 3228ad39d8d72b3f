[package]
name = "policy_lang"
version = "0.1.0"
edition = "2021"
publish = false

[dependencies]
handlebars = "*"
lazy_static = "*"
serde = { version = "*", features = ["derive"] }
