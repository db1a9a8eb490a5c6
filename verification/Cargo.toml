[package]
name = "dc34-vault"
version = "0.1.0"
edition = "2021"
publish = false

[dependencies]
hex = "=0.4.3"
chrono = { version = "=0.4.45", default-features = false, features = ["std", "clock"] }
bytemuck = "=1.25.2"
log = "=0.4.35"
rkyv = "=0.8.18"
qrcode = { version = "=0.14.1", default-features = false }
xous = "=0.9.71"
xous-ipc = "=0.10.11"
xous-names = "=0.9.36"
bao1x-api = "=0.1.4"
