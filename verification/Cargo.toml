[package]
name = "lci"
version = "0.10.5"
edition = "2021"
publish = false

[dependencies]
clap = { version = "4.5", features = ["derive"] }
thiserror = "2.0"
