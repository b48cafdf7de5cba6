[package]
name = "terminus_store"
version = "0.1.0"
edition = "2021"
publish = false

[dependencies]
rand = "=0.7.3"
futures = "=0.1.31"
tokio = "=0.1.22"
futures-locks = "0.3"
