[package]
name = "mononoke"
version = "0.1.0"
edition = "2021"
publish = false

[dependencies]
bytes = "1"
itertools = "0.10"
serde_json = "1"
clap = "2"
