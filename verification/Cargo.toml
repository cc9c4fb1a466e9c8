[package]
name = "pbuild"
version = "0.1.0"
edition = "2021"
publish = false

[dependencies]
anyhow = "1"
glob = "0.3"
hex = "0.4"
sha2 = "0.10"
serde = { version = "1", features = ["derive"] }
toml = "0.8"
rayon = "1"
notify = "6"
flate2 = "1"
tar = "0.4"
ureq = { version = "3", default-features = false }
