[package]
name = "font-diff"
version = "0.1.0"
edition = "2021"
publish = false

[dependencies]
skrifa = "*"
read-fonts = "*"
base64 = "0.22"
clap = { version = "4", features = ["derive"] }
