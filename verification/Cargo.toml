[package]
name = "kproc"
version = "0.1.0"
edition = "2021"
publish = false

[dependencies]
arrayvec = { version = "=0.7.8", default-features = false }
chrono = { version = "=0.4.45", default-features = false }
log = "=0.4.34"
uefi = "=0.41.0"
x86_64 = { version = "=0.15.5", default-features = false, features = ["instructions"] }
xmas-elf = "=0.10.0"
