[package]
name = "punchcards"
version = "0.1.0"
edition = "2021"
publish = false

[dependencies]
rand = "=0.4.6"
grid_search = "=0.15.1"
grid_2d = "=0.12.5"
direction = "=0.17.12"
invert = "=0.2.1"
serde = { version = "=1.0.229", features = ["derive"] }
prototty = "0.15"
prototty_common = "0.15"
