[package]
name = "mouseshare"
version = "0.1.0"
edition = "2021"
publish = false

[dependencies]
anyhow = "1"
arboard = { version = "3", default-features = false }
directories = "6"
eframe = { version = "0.31", default-features = false, features = ["default_fonts", "glow", "x11"] }
env_logger = { version = "0.11", default-features = false }
local-ip-address = "0.6"
log = "0.4"
rdev = { version = "0.5", features = ["serialize"] }
serde = { version = "1", features = ["derive"] }
serde_json = "1"
whoami = "1"
x11-dl = "2"
