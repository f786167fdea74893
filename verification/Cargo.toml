[package]
name = "gravlib"
version = "0.1.0"
edition = "2021"
publish = false

[dependencies]
indexmap = { version = "2", features = ["serde"] }
serde = { version = "1", features = ["derive"] }
postcard = { version = "1", features = ["alloc"] }
thiserror = "*"
clap = { version = "4", features = ["derive"] }
reedline-repl-rs = "*"
