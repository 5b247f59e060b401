[package]
name = "warp_ninja"
version = "0.1.0"
edition = "2021"
publish = false

[dependencies]
uuid = { version = "1", features = ["v4", "v5"] }
dashmap = "6"
serde_json = "1"
log = "0.4"
walkdir = "2"
binaryninja = "*"
binaryninjacore-sys = "*"
