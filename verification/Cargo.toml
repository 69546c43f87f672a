[package]
name = "dir_mirror"
version = "0.1.0"
edition = "2021"
publish = false

[dependencies]
anyhow = "1"
blake3 = "1"
clap = { version = "4", features = ["derive"] }
futures = "0.3"
ignore = "0.4"
rayon = "1"
tokio = { version = "1", features = ["full"] }
