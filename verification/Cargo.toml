[package]
name = "esp_radar"
version = "0.1.0"
edition = "2021"
publish = false

[dependencies]
embedded-graphics = "=0.8.2"
heapless = "=0.9.3"
log = "=0.4.35"
micromath = "=2.1.0"
serde = { version = "=1.0.229", default-features = false, features = ["derive"] }
bevy_ecs = { version = "=0.20.1", default-features = false }
embassy-sync = "=0.8.0"
embassy-time = "=0.5.1"
static_cell = "=2.1.1"
critical-section = "=1.2.0"
embassy-executor = "*"
embassy-net = { version = "*", features = ["tcp", "dns", "dhcpv4", "proto-ipv4", "medium-ethernet"] }
embassy-embedded-hal = "*"
esp-hal = "*"
esp-alloc = "*"
esp-bootloader-esp-idf = "*"
esp-println = "*"
esp-rtos = "*"
device-envoy-esp = "*"
lcd-async = "*"
json-bourne = "*"
picoserve = { version = "*", features = ["embassy"] }
reqwless = { version = "*", default-features = false }
