[package]
name = "proxyenv"
version = "0.1.0"
edition = "2021"
publish = false

[dependencies]
clap = { version = "=4.6.7", features = ["derive"] }
colored = "=3.1.1"
winreg = "=0.56.0"
zbus = "5"
