[package]
name = "dq"
version = "0.1.0"
edition = "2021"
publish = false

[dependencies]
anyhow = "=1.0.104"
async-trait = "=0.1.92"
bytes = "=1.12.1"
clap = { version = "=4.6.7", features = ["derive"] }
futures = "=0.3.34"
fuzzy-matcher = "=0.3.7"
html2text = { version = "=0.17.1", features = ["css"] }
indicatif = "=0.18.6"
libc = "=0.2.190"
reqwest = { version = "=0.13.5", default-features = false, features = ["stream"] }
serde = { version = "=1.0.229", features = ["derive"] }
serde_json = "=1.0.151"
stanza = "=0.5.2"
termion = "=4.0.6"
tokio = { version = "=1.53.2", features = ["full"] }
toml = "=1.1.7"
xdg = "=3.0.0"
