[package]
name = "gitka"
version = "0.1.0"
edition = "2021"
publish = false

[dependencies]
zstd = "*"
sha2 = "*"
hex = "*"
aes-gcm = "*"
getrandom = "*"
serde = { version = "*", features = ["derive"] }
serde_json = "*"
toml = "*"
clap = { version = "*", features = ["derive"] }
walkdir = "*"
indicatif = "*"
dirs = "*"
git2 = "*"
reqwest = { version = "*", features = ["blocking", "json"] }
anyhow = "*"
thiserror = "*"
tracing = "*"
tracing-subscriber = { version = "*", features = ["env-filter"] }
libc = "*"
plist = "*"
