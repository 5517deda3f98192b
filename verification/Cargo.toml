[package]
name = "flvparse"
version = "0.1.0"
edition = "2021"
publish = false

[dependencies]
prettytable-rs = "0.8"
structopt = "0.3"

[dev-dependencies]
nom = "7"
