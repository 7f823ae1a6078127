[package]
name = "badness"
version = "0.1.0"
edition = "2021"
publish = false

[dependencies]
miniz_oxide = "*"
phf = "*"
rowan = "*"
serde = { version = "1", features = ["derive"] }
serde_json = "1"
smol_str = "*"

[dev-dependencies]
phf_generator = "*"
