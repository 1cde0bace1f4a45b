[package]
name = "ion_scalars"
version = "0.1.0"
edition = "2021"
publish = false

[dependencies]
chrono = "0.4"
num-bigint = "0.4"
