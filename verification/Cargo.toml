[package]
name = "async_exec"
version = "0.1.0"
edition = "2021"
publish = false

[dependencies]
anyhow = "1"
llguidance = "0.7"
log = "0.4"
rand = "0.9"
rayon = "1"
tokio = { version = "1", features = ["sync"] }
toktrie = "0.7"
