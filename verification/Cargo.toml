[package]
name = "oxtub"
version = "0.1.0"
edition = "2021"
publish = false

[dependencies]
sqlparser = "*"
thiserror = "*"
tracing = "*"
tracing-subscriber = "*"
