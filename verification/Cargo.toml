[package]
name = "primport"
version = "0.1.0"
edition = "2021"
publish = false

[dependencies]
byteorder = "=1.5.0"
clap = { version = "4.5", features = ["derive"] }
