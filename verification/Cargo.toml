[package]
name = "errorvec"
version = "0.1.0"
edition = "2021"

[dependencies]
derive_more = { version = "*", features = ["from", "into"] }
