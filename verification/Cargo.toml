[package]
name = "batch_resolve"
version = "0.1.0"
edition = "2021"
publish = false

[dependencies]
num_cpus = "=1.17.0"
trust-dns = { version = "=0.14.0", default-features = false }
trust-dns-proto = { version = "=0.4.3", default-features = false }
futures = "=0.1.31"
tokio-core = "=0.1.18"
crossbeam = "=0.2.12"
toml = "=0.4.10"
serde = "=1.0.229"
serde_derive = "=1.0.229"
clap = "=2.34.0"
log = "=0.3.9"
env_logger = "=0.4.3"
indicatif = "=0.9.0"
lazy_static = "=1.5.1"
