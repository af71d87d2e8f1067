[package]
name = "drooling"
version = "0.2.0"
edition = "2021"
publish = false

[dependencies]
object = { version = "=0.36.7", default-features = false, features = ["read_core", "elf", "std", "unaligned"] }
anyhow = "=1.0.104"
clap = { version = "=4.6.7", features = ["derive"] }
nusb = "=0.2.9"
picoboot = "=0.3.0"
tokio = { version = "=1.54.1", features = ["rt"] }
usb-device = "=0.3.2"
cortex-m = "=0.7.10"
rp2040-hal = "=0.10.2"
