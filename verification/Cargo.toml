[package]
name = "enum_dict"
version = "0.1.0"
edition = "2021"
publish = false

[dependencies]
heck = "0.5"
proc-macro2 = "1"
quote = "1"
serde = "1"
syn = "2"

[dev-dependencies]
serde_json = { version = "1", features = ["preserve_order"] }
