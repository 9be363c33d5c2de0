[package]
name = "tunnel"
version = "0.1.0"
edition = "2021"
publish = false

[dependencies]
regex = "*"
md-5 = "*"
sha1 = "*"
hkdf = "*"
ring = "*"
rand = "*"
tokio = { version = "*", features = ["full"] }
serde = { version = "*", features = ["derive"] }
serde_json = "*"
json_comments = "*"
anyhow = "*"
clap = { version = "*", features = ["derive"] }
log = "*"
socket2 = "*"
async-trait = "*"
