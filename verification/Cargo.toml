[package]
name = "volumetrics"
version = "0.1.0"
edition = "2021"
publish = false

[dependencies]
ndarray = "=0.17.2"
rustc_apfloat = "=0.2.3"
ieee-apsqrt = "=0.1.1"
