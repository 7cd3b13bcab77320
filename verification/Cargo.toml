[package]
name = "rgnix"
version = "0.1.0"
edition = "2021"
publish = false

[dependencies]
http = "=1.5.0"
percent-encoding = "=2.3.2"
url = "=2.5.8"
sha2 = "=0.10.9"
ipnet = "=2.12.2"
rand = "=0.8.8"
httpdate = "=1.0.3"
openssl = "=0.10.82"
prost = "*"
opentelemetry-proto = { version = "*", default-features = false, features = ["gen-tonic-messages", "logs", "trace"] }
cap-std = "*"
glob = "=0.3.4"
flate2 = "=1.1.10"
tempfile = "=3.27.0"
libc = "=0.2.191"
chrono = "=0.4.45"
anyhow = "=1.0.104"
log = "=0.4.35"
env_logger = "=0.11.11"
clap = { version = "=4.6.7", features = ["derive", "env"] }
serde = { version = "=1.0.229", features = ["derive"] }
serde_json = "=1.0.154"
serde_yaml_ng = "=0.10.0"
