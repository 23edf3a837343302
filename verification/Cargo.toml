[package]
name = "suika_core"
version = "0.1.0"
edition = "2021"
publish = false

[dependencies]
rand_core = "0.6"
rand_chacha = "0.3"
serde = { version = "1", features = ["derive"] }
ron = "0.8"
clap = { version = "4", features = ["derive"] }
