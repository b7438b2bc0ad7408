[package]
name = "synapse-core"
version = "0.1.0"
edition = "2021"
publish = false

[dependencies]
anyhow = "1"
clap = { version = "4", features = ["derive"] }
dirs = "*"
eframe = { version = "=0.36.2", default-features = false, features = ["default_fonts", "glow", "wayland", "x11"] }
egui = "=0.36.2"
env_logger = "*"
ksni = { version = "=0.3.7", features = ["blocking"] }
libc = "=0.2.191"
log = "0.4"
notify-rust = "=4.18.2"
serde = { version = "1", features = ["derive"] }
serde_json = "1"
thiserror = "2"
toml = "*"
