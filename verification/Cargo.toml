[package]
name = "agar_keys"
version = "0.1.0"
edition = "2021"
publish = false

[dependencies]
embassy-time = { version = "=0.5.1", features = ["std"] }
embedded-hal = "=1.0.0"
cortex-m = "=0.7.10"
log = "=0.4.35"
rmk = { version = "=0.9.0", default-features = false }
embassy-stm32 = { version = "*", default-features = false, features = ["stm32f103cb", "time-driver-any"] }
