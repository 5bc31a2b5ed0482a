[package]
name = "daplot"
version = "0.1.0"
edition = "2021"
publish = false

[dependencies]
chrono = "=0.4.45"
csv = "=1.4.0"
anyhow = "=1.0.104"
jiff = "=0.2.39"
eframe = { version = "=0.37.0", default-features = false, features = ["default_fonts", "glow", "x11"] }
egui_plot = "=0.38.0"
egui_extras = { version = "=0.37.0", default-features = false, features = ["datepicker"] }
rfd = { version = "=0.17.2", default-features = false, features = ["xdg-portal"] }
arboard = { version = "=3.7.0", default-features = false, features = ["image-data"] }
image = { version = "=0.25.10", default-features = false, features = ["png"] }
arrow = { version = "=60.1.0", default-features = false }
parquet = { version = "=60.1.0", default-features = false, features = ["arrow"] }
bytes = "=1.12.1"
