[package]
name = "markov_runner"
version = "0.1.0"
edition = "2021"
publish = false

[dependencies]
anyhow = "*"
clap = { version = "4", features = ["derive"] }
crossterm = "*"
rand = "*"
