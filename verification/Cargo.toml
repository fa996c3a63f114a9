[package]
name = "exif_dates_fixer"
version = "0.1.0"
edition = "2021"
publish = false

[dependencies]
glob = "*"
rexiv2 = "*"
serde = { version = "*", features = ["derive"] }
serde_json = "*"
