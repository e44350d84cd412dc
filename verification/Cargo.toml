[package]
name = "approx_shannon_entropy"
version = "0.1.0"
edition = "2021"

[dependencies]
micromath = "=1.1.1"
