[package]
name = "sim800l_gateway"
version = "0.1.0"
edition = "2021"
publish = false

[dependencies]
atat = "=0.24.1"
embassy-embedded-hal = "=0.6.0"
embassy-executor = { version = "=0.10.0", features = ["platform-std", "executor-thread"] }
embassy-futures = "=0.1.2"
embassy-net = { version = "=0.9.1", features = ["tcp", "dns", "proto-ipv4", "medium-ip"] }
embassy-net-ppp = "=0.3.0"
embassy-rp = { version = "=0.10.0", features = ["rp235xa", "unstable-pac", "time-driver", "critical-section-impl"] }
embassy-sync = "=0.8.0"
embassy-time = { version = "=0.5.1", features = ["std"] }
embassy-usb = "=0.6.0"
embassy-usb-logger = "=0.6.0"
embedded-graphics = "=0.8.1"
embedded-hal-async = "=1.0.0"
embedded-io = "=0.7.1"
embedded-io-async = "=0.7.0"
heapless = "=0.9.3"
log = "=0.4.35"
max170xx = "=1.1.0"
rust-mqtt = { version = "=0.5.1", default-features = false, features = ["v5", "bump"] }
ssd1306 = { version = "=0.9.0", features = ["async"] }
static_cell = "=2.1.1"
