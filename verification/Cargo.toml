[package]
name = "rust_roguelike"
version = "0.1.0"
edition = "2021"
publish = false

[dependencies]
anyhow = "1"
ggez = { version = "0.9", default-features = false }
rand = "0.8"
rand_pcg = "0.3"
rusqlite = { version = "0.31", features = ["bundled"] }
