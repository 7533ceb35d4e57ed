[package]
name = "leader_elect"
version = "0.1.0"
edition = "2021"
publish = false

[dependencies]
chrono = "0.4"
clap = { version = "4", features = ["derive"] }
colored = "2"
derive_more = "0.99"
log = "0.4"
