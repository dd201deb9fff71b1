[package]
name = "oberon"
version = "0.1.0"
edition = "2021"
publish = false

[dependencies]
dsd-reader = "*"
id3 = "1"
image = { version = "0.25", default-features = false, features = ["bmp", "gif", "jpeg", "png", "webp"] }
lofty = "0.25"
notify = "*"
opus-pure = "*"
rayon = "1"
rodio = { version = "0.22", default-features = false, features = ["symphonia-all"] }
rusqlite = { version = "*", features = ["bundled"] }
serde = { version = "1", features = ["derive"] }
symphonia = { version = "0.5", features = ["aac"] }
walkdir = "2"
