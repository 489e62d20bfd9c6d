[package]
name = "snd"
version = "0.1.0"
edition = "2021"
publish = false

[dependencies]
base64 = "=0.23.1"
bytes = "=1.12.1"
chrono = "=0.4.45"
core_affinity = "=0.8.3"
crossbeam = "=0.8.5"
crossbeam-channel = "=0.5.17"
env_logger = "=0.11.11"
governor = "=0.10.4"
h2 = "=0.4.20"
http = "=1.5.0"
log = "=0.4.34"
mio = { version = "=1.2.4", features = ["os-poll", "net"] }
num_cpus = "=1.17.0"
rand = "=0.10.3"
rustls = { version = "0.23", default-features = false, features = ["ring", "std", "tls12", "logging"] }
serde = { version = "=1.0.229", features = ["derive"] }
serde_json = "=1.0.154"
serde_yaml = "=0.9.34"
structopt = "=0.3.26"
tokio = { version = "=1.54.1", features = ["rt", "net", "time"] }
trust-dns-client = "=0.23.2"
validator = "=0.21.0"
webpki-roots = "0.26"
