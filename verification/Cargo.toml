[package]
name = "trustify"
version = "0.1.0"
edition = "2021"
publish = false

[dependencies]
anyhow = "1"
base64 = "*"
clap = { version = "4", features = ["derive"] }
directories = "*"
regex = "1"
reqwest = { version = "=0.13.5", default-features = false, features = ["json", "form"] }
serde = { version = "1", features = ["derive"] }
serde_json = "1"
tokio = { version = "1", features = ["rt-multi-thread", "macros", "time"] }
url = "2"
