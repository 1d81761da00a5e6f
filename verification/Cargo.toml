[package]
name = "peter_prompt"
version = "0.1.0"
edition = "2021"
publish = false

[dependencies]
unicode-width = "*"
mlua = { version = "0.10", features = ["lua54", "vendored", "serialize"] }
serde = { version = "1", features = ["derive"] }
cross-xdg = "*"
