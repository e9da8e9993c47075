[package]
name = "boot_memory"
version = "0.1.0"
edition = "2021"
publish = false

[dependencies]
bootloader = "=0.9.35"

[dependencies.x86_64]
version = "=0.14.13"
default-features = false
features = ["instructions"]
