[package]
name = "mail_search"
version = "0.1.0"
edition = "2021"
publish = false

[dependencies]
chrono = { version = "=0.4.45", default-features = false, features = ["now"] }
eframe = { version = "0.24", default-features = false, features = ["default_fonts", "glow"] }
egui = { version = "0.24", default-features = false, features = ["default_fonts"] }
encoding_rs = "=0.8.44"
mail-parser = { version = "=0.11.9", features = ["full_encoding"] }
rayon = "1"
regex = "=1.13.1"
rfd = { version = "0.14", default-features = false, features = ["xdg-portal", "tokio"] }
rusqlite = { version = "0.31", features = ["bundled", "functions"] }
walkdir = "2"
