[package]
name = "nss_netns"
version = "0.1.0"
edition = "2021"
publish = false

[dependencies]
libc = "0.2"
libnss = "=0.9.0"
serde_json = "=1.0.154"
