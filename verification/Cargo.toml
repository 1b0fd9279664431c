[package]
name = "loomix"
version = "0.1.0"
edition = "2021"
publish = false

[dependencies]
rtrb = "=0.4.1"
serde = { version = "=1.0.229", features = ["derive"] }
serde_json = "=1.0.154"
coreaudio-sys = "=0.2.18"
tauri = { version = "2", default-features = false }
