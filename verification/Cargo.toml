[package]
name = "uefi_gb"
version = "0.1.0"
edition = "2021"
publish = false

[dependencies]
log = "=0.4.34"
rgy = "=0.1.0"
uefi = { version = "0.27", default-features = false, features = ["alloc"] }
uefi-services = { version = "=0.24.0", default-features = false }
