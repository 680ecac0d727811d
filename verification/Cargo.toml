[package]
name = "kindra"
version = "0.1.0"
edition = "2021"
publish = false

[dependencies]
anyhow = "*"
base64 = "*"
clap = { version = "*", features = ["derive"] }
clap_complete = { version = "*", features = ["unstable-dynamic"] }
crossterm = "*"
dirs = "*"
fs2 = "*"
git-absorb = "*"
git2 = { version = "*", default-features = false }
inquire = "*"
serde = { version = "*", features = ["derive"] }
serde_json = "*"
slog = "*"
slog-term = "*"
tempfile = "*"
toml = "*"
