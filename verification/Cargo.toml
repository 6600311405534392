[package]
name = "srisum"
version = "5.0.0"
edition = "2021"
publish = false

[dependencies]
clap = { version = "4", features = ["derive"] }
miette = "5"
ssri = "9"
thiserror = "1"
