[package]
name = "bts"
version = "0.1.0"
edition = "2021"
publish = false

[dependencies]
anyhow = "1"
chrono = { version = "0.4", features = ["serde"] }
num_cpus = "1"
plotters = { version = "0.3", default-features = false, features = ["svg_backend", "bitmap_backend", "bitmap_encoder", "candlestick", "chrono"] }
rayon = "1"
serde = { version = "1", features = ["derive"] }
serde_json = "1"
ta = "0.5"
thiserror = "1"
