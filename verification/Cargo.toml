[package]
name = "macrdp"
version = "0.1.0"
edition = "2021"
publish = false

[dependencies]
anyhow = "=1.0.104"
async-trait = "=0.1.92"
block2 = "=0.5.1"
bytes = "=1.12.1"
clap = { version = "=4.6.7", features = ["derive"] }
core-foundation = "=0.10.1"
core-graphics = "=0.24.0"
der = "=0.7.10"
image = { version = "=0.25.10", default-features = false, features = ["png", "tiff"] }
ironrdp-cliprdr = "=0.9.0"
ironrdp-core = "=0.3.1"
ironrdp-pdu = { version = "=0.11.0", features = ["qoi", "qoiz"] }
ironrdp-rdpsnd = "=0.11.0"
libc = "=0.2.191"
objc2 = "=0.5.3"
objc2-app-kit = { version = "=0.2.2", features = ["all"] }
objc2-foundation = { version = "=0.2.2", features = ["all"] }
rcgen = { version = "=0.13.2", default-features = false, features = ["crypto", "pem", "ring"] }
rpassword = "=7.5.4"
rubato = "=0.16.2"
rustls = { version = "=0.23.46", default-features = false, features = ["ring", "std", "tls12"] }
rustls-pemfile = "=2.2.0"
tokio = { version = "=1.54.1", features = ["full"] }
tokio-rustls = { version = "=0.26.6", default-features = false, features = ["ring", "tls12"] }
tracing = "=0.1.44"
tracing-appender = "=0.2.5"
tracing-subscriber = { version = "=0.3.23", features = ["env-filter", "json"] }
x509-cert = "=0.2.5"
zeroize = "=1.9.1"
