[package]
name = "rstrf"
version = "0.1.0"
edition = "2021"
publish = false

[dependencies]
bytemuck = "=1.25.2"
chrono = "=0.4.45"
regex = "1"
sgp4 = "=2.4.0"
