[package]
name = "lemoncake"
version = "0.1.0"
edition = "2021"
publish = false

[dependencies]
goblin = "=0.10.7"
x86_64 = { version = "=0.15.5", default-features = false, features = ["instructions"] }
pc-keyboard = "=0.9.0"
spin = "=0.12.3"
spinning_top = "=0.4.0"
zune-png = "=0.5.2"
fontdue = "=0.9.5"
ovmf-prebuilt = "*"
bootloader_api = "*"
limine = "*"
