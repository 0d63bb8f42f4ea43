[package]
name = "velokvm"
version = "0.1.0"
edition = "2021"
publish = false

[dependencies]
snow = "0.9"
thiserror = "1"
