[package]
name = "deku_generic"
version = "0.1.0"
edition = "2021"
publish = false

[dependencies]
deku = "0.20"
proc-macro2 = "1"
quote = "1"
syn = { version = "2", features = ["full"] }
