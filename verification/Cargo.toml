[package]
name = "dosh"
version = "0.1.0"
edition = "2021"
publish = false

[dependencies]
clap = "2.34"
console = "0.15"
serde = { version = "1", features = ["derive"] }
serde_json = "1"
serde_yaml = "0.9"
starlark = "*"
structopt = "0.3"
term = "0.7"
