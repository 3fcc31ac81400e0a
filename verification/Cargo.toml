[package]
name = "mc_render"
version = "0.1.0"
edition = "2021"
publish = false

[dependencies]
serde_json = "*"
zip = { version = "0.6", default-features = false, features = ["deflate"] }
