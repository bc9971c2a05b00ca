[package]
name = "fpu_calc"
version = "0.1.0"
edition = "2021"
publish = false

[dependencies]
cortex-m = "*"
cortex-m-rt = "*"
embedded-alloc = "*"
panic-halt = "*"
rtt-target = "*"
stm32f4xx-hal = { version = "*", features = ["stm32f446"] }
