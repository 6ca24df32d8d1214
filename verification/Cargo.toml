[package]
name = "l4d2_addon_manager"
version = "0.1.0"
edition = "2021"
publish = false

[dependencies]
chrono = "=0.4.45"
console = "=0.16.6"
dirs = "=7.0.0"
flexi_logger = "=0.31.10"
futures = "=0.3.34"
keyvalues-serde = "=0.2.4"
log = "=0.4.34"
regex = "=1.13.1"
reqwest = { version = "=0.12.28", features = ["blocking", "stream"] }
serde = { version = "=1.0.229", features = ["derive"] }
serde_json = "=1.0.154"
steam-workshop-api = "=0.7.0"
tinyfiledialogs = "=3.9.1"
