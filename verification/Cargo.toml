[package]
name = "chalk-slg"
version = "0.1.0"
edition = "2021"
publish = false

[dependencies]
chalk-ir = "0.104.0"
chalk-solve = { version = "0.104.0", default-features = false }
