[package]
name = "zk_torch"
version = "0.1.0"
edition = "2021"
publish = false

[dependencies]
ark-bn254 = "0.4"
ark-ff = "0.4"
ark-poly = "0.4"
