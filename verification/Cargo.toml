[package]
name = "general-sys-tray-app"
version = "0.1.0"
edition = "2021"
publish = false

[dependencies]
anyhow = "1"
clap = { version = "4", features = ["derive"] }
crossbeam-channel = "0.5"
dirs = "5"
glib = "0.18"
gtk = "0.18"
image = { version = "0.24", default-features = false }
libc = "0.2"
open = "5"
resvg = { version = "*", default-features = false }
serde = { version = "1", features = ["derive"] }
serde_yaml = "0.9"
tray-icon = "*"
