[package]
name = "facecomp"
version = "0.1.0"
edition = "2021"
publish = false

[dependencies]
unicode-width = "0.2"
opencv = "*"
clap = { version = "4", features = ["derive", "env"] }
serde = { version = "1", features = ["derive"] }
serde_json = "1"
glob = "0.3"
