[package]
name = "carapace"
version = "0.1.0"
edition = "2021"
publish = false

[dependencies]
anyhow = "1"
hex = "0.4"
iocuddle = "0.1"
libc = "0.2"
serde_json = "1"
sha2 = "0.10"
thiserror = "2"
zerocopy = { version = "0.8", features = ["derive"] }
