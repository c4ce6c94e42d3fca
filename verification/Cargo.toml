[package]
name = "openrhythm_core"
version = "0.1.0"
edition = "2021"
publish = false

[dependencies]
sha2 = "=0.11.0"
zip = "=8.6.0"
walkdir = "=2.5.0"
directories = "=6.0.0"
chrono = "=0.4.45"
serde = { version = "*", features = ["derive"] }
serde_json = "*"
