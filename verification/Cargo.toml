[package]
name = "hydra-dx-math"
version = "0.1.0"
edition = "2021"
publish = false

[dependencies]
num-traits = "0.2"
primitive-types = { version = "*", default-features = false }
sp-arithmetic = "*"
