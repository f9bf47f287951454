[package]
name = "rendar"
version = "0.1.0"
edition = "2021"
publish = false

[dependencies]
anyhow = "*"
axum = "*"
clap = { version = "*", features = ["derive"] }
csv = "*"
notify = "*"
pulldown-cmark = "*"
serde = { version = "*", features = ["derive"] }
tempfile = "*"
tokio = { version = "*", features = ["macros", "net", "rt-multi-thread"] }
toml = "*"
tower-http = { version = "*", features = ["fs"] }
walkdir = "*"
