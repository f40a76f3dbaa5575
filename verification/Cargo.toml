[package]
name = "pico_blink"
version = "0.1.0"
edition = "2021"
publish = false

[dependencies]
heapless = { version = "=0.8.0", features = ["serde"] }
serde = { version = "=1.0.229", default-features = false, features = ["derive"] }
serde-json-core = "=0.6.0"
log = "0.4"
embassy-sync = "0.6"
embassy-time = "0.3"
embassy-net = { version = "0.4", features = ["tcp", "udp", "proto-ipv4", "medium-ethernet"] }
embassy-executor = { version = "0.6", features = ["arch-std", "executor-thread", "integrated-timers"] }
embassy-rp = { version = "0.2", features = ["time-driver"] }
embassy-usb-logger = "0.2"
embedded-io-async = "0.6"
cyw43 = "0.2"
cyw43-pio = "0.2"
panic-halt = "0.2"
rand_core = "0.6"
static_cell = "2"
