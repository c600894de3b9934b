[package]
name = "harper_zh"
version = "0.1.0"
edition = "2021"
publish = false

[dependencies]
anyhow = "1"
ariadne = "0.5"
clap = { version = "4", features = ["derive"] }
clap_complete = "4"
dirs = "6"
hashbrown = "0.15"
rayon = "1"
serde = { version = "1", features = ["derive"] }
serde_json = "1"
yansi = "1"
