[package]
name = "wombat"
version = "0.1.0"
edition = "2021"
publish = false

[dependencies]
ahash = { version = "=0.8.12", default-features = false, features = ["no-rng", "std"] }
egui_plot = { version = "=0.38.0", default-features = false }
file-format = "=0.29.0"
roxmltree = "=0.21.2"
serde = { version = "=1.0.229", features = ["derive"] }
x509-parser = "=0.18.1"
