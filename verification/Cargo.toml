[package]
name = "rustkyll"
version = "0.1.0"
edition = "2021"
publish = false

[dependencies]
chrono = "=0.4.45"
chrono-tz = "=0.10.4"
iana-time-zone = "=0.1.65"
kstring = { version = "=2.0.2", features = ["serde"] }
liquid = "=0.26.11"
liquid-core = "=0.26.11"
liquid-lib = { version = "=0.26.11", features = ["jekyll"] }
regex = "=1.13.1"
serde_json = "=1.0.154"
serde_yaml = "=0.9.34"
thiserror = "=2.0.21"
