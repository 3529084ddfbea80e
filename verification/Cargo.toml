[package]
name = "pxar_backup"
version = "0.1.0"
edition = "2021"
publish = false

[dependencies]
anyhow = "=1.0.104"
futures = "=0.3.34"
libc = "=0.2.191"
log = "=0.4.35"
nix = "=0.19.1"
pathpatterns = "=0.1.2"
regex-syntax = "=0.8.11"
serde_json = "=1.0.154"

[dev-dependencies]
regex = "=1.13.1"
