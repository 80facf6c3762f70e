[package]
name = "qc_filter"
version = "0.1.0"
edition = "2021"
publish = false

[dependencies]
hifitime = { version = "4", default-features = false, features = ["std"] }
thiserror = "1"
