[package]
name = "polypus"
version = "0.1.0"
edition = "2021"
publish = false

[dependencies]
bollard = "*"
clap = { version = "4", features = ["derive"] }
console = "*"
indicatif = "*"
serde = { version = "1", features = ["derive"] }
serde_json = "1"
serde_yaml = "*"
tokio = { version = "1", features = ["macros", "rt-multi-thread"] }
