[package]
name = "md_gfx"
version = "0.1.0"
edition = "2021"
publish = false

[dependencies]
fontdue = "0.9"
serde = { version = "1", features = ["derive"] }
serde_json = "1"
sha2 = "0.10"
png = "0.17"
