[package]
name = "medius"
version = "0.1.0"
edition = "2021"
publish = false

[dependencies]
sha2 = "0.10"
serde = { version = "1", features = ["derive"] }
serde_json = "1"
hdrhistogram = "7"
clap = { version = "4", features = ["derive"] }
thiserror = "2"
libc = "0.2"
