[package]
name = "investmodel"
version = "0.1.0"
edition = "2021"
publish = false

[dependencies]
chrono = "0.4"
csv = "1"
serde = { version = "1", features = ["derive"] }
plotters = { version = "0.3", default-features = false, features = ["svg_backend", "line_series", "chrono"] }
