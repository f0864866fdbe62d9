[package]
name = "ravenvoice"
version = "0.1.0"
edition = "2021"
publish = false

[dependencies]
anyhow = "1"
async-channel = "*"
clap = { version = "4", features = ["derive"] }
cpal = "*"
crossbeam-channel = "*"
dirs = "*"
env_logger = "*"
evdev = "*"
gtk4 = { version = "*", features = ["v4_14"] }
gtk4-layer-shell = "*"
hound = "*"
log = "*"
serde = { version = "1", features = ["derive"] }
serde_json = "1"
toml = "*"
ureq = "*"
whisper-rs = "*"
