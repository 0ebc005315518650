[package]
name = "sporlcli"
version = "0.1.0"
edition = "2021"
publish = false

[dependencies]
sha2 = "*"
base64 = "*"
rand = "*"
chrono = "*"
serde = { version = "*", features = ["derive"] }
serde_json = "*"
tokio = { version = "*", features = ["full"] }
reqwest = { version = "*", default-features = false, features = ["json", "rustls-tls"] }
axum = "*"
async-fs = "*"
dirs = "*"
dotenv = "*"
webbrowser = "*"
clap = { version = "*", features = ["derive"] }
clap_complete = "*"
colored = "*"
indicatif = "*"
tabled = "*"
