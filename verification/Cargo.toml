[package]
name = "telos"
version = "0.1.0"
edition = "2021"
publish = false

[dependencies]
goblin = "=0.10.7"
log = "=0.4.35"
spin = "=0.12.3"
thiserror = "=2.0.21"
uefi = { version = "=0.41.0", features = ["alloc"] }
x86_64 = { version = "=0.15.5", default-features = false, features = ["instructions"] }
