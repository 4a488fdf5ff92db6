[package]
name = "difftastic_nvim"
version = "0.1.0"
edition = "2021"
publish = false

[dependencies]
mlua = { version = "0.10", features = ["luajit", "module"] }
rayon = "1"
serde_json = "1"
