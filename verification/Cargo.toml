[package]
name = "kosmos_core"
version = "0.1.0"
edition = "2021"
publish = false

[dependencies]
crossbeam-queue = "*"
pc-keyboard = "*"
raw-cpuid = "*"
x86_64 = { version = "=0.15.5", default-features = false, features = ["instructions"] }
pic8259 = "*"
uart_16550 = "*"
futures-util = "*"
