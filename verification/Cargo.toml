[package]
name = "domain_proxy"
version = "0.1.0"
edition = "2021"
publish = false

[dependencies]
anyhow = "=1.0.104"
async-trait = "=0.1.92"
log = "=0.4.35"
rustls = { version = "=0.20.9", features = ["dangerous_configuration"] }
rustls-pemfile = "=1.0.4"
tokio = { version = "=1.54.1", features = ["net", "rt", "time"] }
tokio-rustls = "=0.23.4"
webpki = "=0.22.4"
