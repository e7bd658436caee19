[package]
name = "cast"
version = "0.1.0"
edition = "2021"
publish = false

[dependencies]
aes = "0.8"
anyhow = "1"
clap = { version = "4", features = ["derive"] }
ctr = "0.9"
ctrlc = "3"
env_logger = "0.11"
ffmpeg-next = "*"
getrandom = "0.3"
libc = "0.2"
log = "0.4"
mdns-sd = "*"
muxide = "*"
pipewire = "*"
rust_cast = "*"
screencapturekit = "*"
serde = { version = "1", features = ["derive"] }
serde_json = "1"
tempfile = "3"
videotoolbox = "*"
x11rb = { version = "0.13", features = ["randr"] }
