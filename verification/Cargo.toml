[package]
name = "lyra"
version = "0.1.0"
edition = "2021"
publish = false

[dependencies]
blake3 = "1"
image = { version = "0.25", default-features = false, features = ["png", "jpeg"] }
lofty = "*"
walkdir = "2"
rayon = "1"
rusqlite = { version = "*", features = ["bundled"] }
rusqlite_migration = "*"
symphonia = "*"
rubato = "*"
biquad = "*"
ebur128 = "*"
rustfft = "6"
rtrb = "*"
cpal = "*"
serde = { version = "1", features = ["derive"] }
serde_json = "1"
thiserror = "2"
