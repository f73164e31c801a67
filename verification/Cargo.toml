[package]
name = "boj_shell"
version = "0.1.0"
edition = "2021"
publish = false

[dependencies]
anyhow = "*"
console = "*"
dialoguer = { version = "*", features = ["history"] }
indicatif = "*"
serde = { version = "*", features = ["derive"] }
serde_json = "*"
similar = "*"
thirtyfour = "*"
tokio = { version = "*", features = ["full"] }
toml = "*"
