[package]
name = "k210_camera"
version = "0.1.0"
edition = "2021"
publish = false

[dependencies]
k210-hal = "0.2.0"
k210-pac = "*"
panic-halt = "*"
riscv-rt = "0.11"
