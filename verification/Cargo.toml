[package]
name = "serverstats"
version = "0.1.0"
edition = "2021"
publish = false

[dependencies]
chrono = "0.4"
regex = "1"
csv = "1"
serde = { version = "1", features = ["derive"] }
hostname = "0.4"
libc = "0.2"
plotters = { version = "0.3", default-features = false, features = ["svg_backend", "bitmap_backend", "bitmap_encoder", "line_series"] }
