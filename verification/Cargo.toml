[package]
name = "sim2h"
version = "0.1.0"
edition = "2021"
publish = false

[dependencies]
rand = "=0.8.8"
im = "=15.1.0"
crossbeam-channel = "=0.5.17"
log = "=0.4.34"
url = "=2.5.8"
url2 = "=0.0.6"
serde = { version = "=1.0.229", features = ["derive"] }
serde_json = "=1.0.154"
lazy_static = "=1.5.1"
futures = "=0.3.34"
futures-timer = "=3.0.4"
snowflake = "1"
