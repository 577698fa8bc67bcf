[package]
name = "dns_wire"
version = "0.1.0"
edition = "2021"
publish = false

[dependencies]
clap = "2"
nom = { version = "6", default-features = false, features = ["std"] }
rand = "0.8"
