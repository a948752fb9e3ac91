[package]
name = "minicalc"
version = "0.1.0"
edition = "2021"
publish = false

[dependencies]
num-bigint = "0.4"
num-rational = "0.4"
num-traits = "0.2"
serde = { version = "1", features = ["derive"] }
ron = "0.8"
clap = { version = "4", features = ["derive"] }
crossterm = "0.27"
platform-dirs = "0.3"
arboard = { version = "3", default-features = false }
