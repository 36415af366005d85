[package]
name = "katara"
version = "0.1.0"
edition = "2021"
publish = false

[dependencies]
profiling = { version = "1", features = ["profile-with-puffin"] }
puffin = "*"
cgmath = "0.18"
rand = "*"
instant = "0.1"
serde = { version = "1", features = ["derive"] }
toml = "*"
anyhow = "1"
log = "0.4"
