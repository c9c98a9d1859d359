[package]
name = "perplex"
version = "0.1.0"
edition = "2021"
publish = false

[dependencies]
llama-cpp-2 = "*"
serde = { version = "*", features = ["derive"] }
serde_json = "*"
