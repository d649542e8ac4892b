[package]
name = "clock"
version = "0.1.0"
edition = "2021"
publish = false

[dependencies]
x86_64 = { version = "0.14", default-features = false, features = ["instructions"] }
uart_16550 = "0.2"
spin = "0.5.2"
lazy_static = { version = "1.0", features = ["spin_no_std"] }
volatile = "0.2.6"
