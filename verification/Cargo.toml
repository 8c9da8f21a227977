[package]
name = "cattocol"
version = "0.1.0"
edition = "2021"
publish = false

[dependencies]
smallstr = "0.3"
strip-ansi-escapes = "0.1"
