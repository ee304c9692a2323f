[package]
name = "icy_draw"
version = "0.1.0"
edition = "2021"
publish = false

[dependencies]
anyhow = "1"
clap = { version = "4", features = ["derive"] }
egui = "*"
egui_tiles = "*"
log = "0.4"
mlua = { version = "*", features = ["lua54", "vendored"] }
regex = "1"
walkdir = "2"
zip = { version = "0.6", default-features = false, features = ["deflate"] }
