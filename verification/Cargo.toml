[package]
name = "caxe"
version = "0.1.0"
edition = "2021"
publish = false

[dependencies]
anyhow = "*"
clap = { version = "*", features = ["derive"] }
colored = "*"
dirs = "*"
git2 = { version = "*", default-features = false }
indicatif = "*"
inquire = "*"
rayon = "*"
rhai = "*"
serde = { version = "*", features = ["derive"] }
serde_json = "*"
toml = "*"
ureq = { version = "*", default-features = false }
walkdir = "*"
