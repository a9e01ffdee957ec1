[package]
name = "gba_link_rs"
version = "0.1.0"
edition = "2021"
publish = false

[dependencies]
cortex-m = "0.7"
critical-section = { version = "1", features = ["std"] }
embassy-executor = { version = "0.7", features = ["arch-std", "executor-thread"] }
embassy-futures = "0.1"
embassy-rp = { version = "=0.5.0", features = ["rp2040"] }
embassy-sync = "=0.7.2"
embassy-time = "0.4"
embassy-usb = "=0.4.0"
hd44780-driver = "0.4"
heapless = "=0.8.0"
panic-halt = "1"
portable-atomic = "1"
static_cell = "2"
usbd-hid = "0.8"

[dev-dependencies]
ssmarshal = "1"
