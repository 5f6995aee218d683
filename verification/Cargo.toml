[package]
name = "uiua"
version = "0.1.0"
edition = "2021"
publish = false

[dependencies]
clap = { version = "4", features = ["derive"] }
color-backtrace = "0.6"
colored = "2"
ctrlc = "3"
image = { version = "0.24", default-features = false, features = ["bmp", "gif", "ico", "jpeg", "png", "tga", "tiff"] }
instant = "0.1"
notify = "6"
once_cell = "1"
parking_lot = "0.12"
rand = { version = "0.8", features = ["small_rng"] }
term_size = "0.3"
