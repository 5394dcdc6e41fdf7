[package]
name = "regval"
version = "0.1.0"
edition = "2021"
publish = false

[dependencies]
amplify_num = { version = "=0.5.4", features = ["hex", "std"] }
