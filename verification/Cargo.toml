[package]
name = "cs110l"
version = "0.1.0"
edition = "2021"
publish = false

[dependencies]
rand = "0.7"
regex = "1"
http = "0.2"
httparse = "1"
tokio = { version = "0.2", features = ["full"] }
futures = "0.3"
log = "0.4"
pretty_env_logger = "0.4"
clap = { version = "3", features = ["derive"] }
nix = "0.17"
rustyline = "6"
num_cpus = "1"
crossbeam-channel = "0.4"
