[package]
name = "bagex"
version = "0.1.0"
edition = "2021"
publish = false

[dependencies]
shellexpand = "2"
serde = { version = "1", features = ["derive"] }
toml = "0.5"
structopt = "0.3"
