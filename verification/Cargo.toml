[package]
name = "currency_exchange"
version = "0.1.0"
edition = "2021"
publish = false

[dependencies]
json = "*"
bigdecimal = "*"
clap = { version = "4", features = ["derive"] }
dotenv = "*"
env_logger = "*"
log = "*"
reqwest = { version = "*", default-features = false, features = ["blocking", "rustls-tls"] }
