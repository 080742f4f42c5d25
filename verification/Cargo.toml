[package]
name = "tscope"
version = "0.1.0"
edition = "2021"
publish = false

[dependencies]
anyhow = "=1.0.104"
clap = { version = "=4.6.7", default-features = false, features = ["derive", "std", "help", "usage"] }
eframe = { version = "=0.37.0", default-features = false, features = ["default_fonts", "glow", "x11"] }
egui_plot = { version = "=0.38.0", default-features = false }
gimli = "=0.34.0"
indicatif = { version = "=0.18.6", default-features = false }
object = "=0.40.0"
probe-rs = { version = "=0.32.0", default-features = false, features = ["builtin-targets", "builtin-formats"] }
ratatui = { version = "=0.30.2", default-features = false, features = ["crossterm"] }
rustyline = { version = "=19.0.0", default-features = false, features = ["with-file-history"] }
serde = { version = "=1.0.229", features = ["derive"] }
yaml_serde = "=0.10.7"
