[package]
name = "martin"
version = "0.1.0"
edition = "2021"
publish = false

[dependencies]
byteorder = "1"
clap = { version = "4", features = ["derive"] }
log = "0.4"
log4rs = "1"
nom = "7"
thiserror = "1"
