[package]
name = "pku3b"
version = "0.1.0"
edition = "2021"
publish = false

[dependencies]
aes = "=0.9.3"
cbc = { version = "=0.2.1", features = ["alloc", "block-padding"] }
url = "=2.5.8"
serde_json = "=1.0.151"
scraper = "=0.27.0"
cyper = { version = "=0.9.0", features = ["cookies"] }
compio = "=0.19.2"
futures-util = "=0.3.34"
http = "=1.5.0"
chrono = "=0.4.45"
anyhow = "=1.0.104"
