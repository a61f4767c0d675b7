[package]
name = "ml_from_scratch"
version = "0.1.0"
edition = "2021"
publish = false

[dependencies]
rand = "0.9"
macroquad = "0.4"
serde = { version = "1", features = ["derive"] }
serde_json = "1"
rayon = "1"
