[package]
name = "ljson"
version = "0.1.0"
edition = "2021"
publish = false

[dependencies]
serde_json = "1"
mlua = { version = "0.8", features = ["lua54", "module", "serialize"] }
