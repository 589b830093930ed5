[package]
name = "podium"
version = "0.1.0"
edition = "2021"
publish = false

[dependencies]
serde_yaml = "0.9"
quick-xml = "0.37"
regex = "1"
serde_json = "1"
sha2 = "0.10"
serde = { version = "1", features = ["derive"] }
thiserror = "2"
clap = { version = "4", features = ["derive"] }
tokio = { version = "1", features = ["process", "time", "rt", "rt-multi-thread", "fs", "net", "macros", "io-util"] }
async-trait = "0.1"
tonic = "0.13"
prost = "0.13"
