[package]
name = "wifi_scan_demo"
version = "0.1.0"
edition = "2021"
publish = false

[dependencies]
anyhow = "*"
defmt = "*"
embassy-executor = "*"
embassy-futures = "*"
embassy-net = "*"
embassy-sync = "*"
embassy-time = "*"
embedded-storage = "*"
esp-alloc = "*"
esp-backtrace = "*"
esp-bootloader-esp-idf = "*"
esp-hal = "*"
esp-println = "*"
esp-radio = "*"
esp-rtos = "*"
esp-storage = "*"
heapless = { version = "*", features = ["serde"] }
postcard = "*"
serde = { version = "*", features = ["derive"], default-features = false }
static_cell = "*"
