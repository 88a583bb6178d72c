[package]
name = "esedb"
version = "0.1.0"
edition = "2021"
publish = false

[dependencies]
clap = { version = "4", features = ["derive"] }
codepage = "0.1"
encoding_rs = "0.8"
tracing-subscriber = { version = "0.3", features = ["env-filter"] }
uuid = "1"
