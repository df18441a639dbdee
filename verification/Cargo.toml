[package]
name = "recorder"
version = "0.1.0"
edition = "2021"
publish = false

[dependencies]
anyhow = "=1.0.104"
rtrb = "=0.4.1"
rubato = "=5.0.1"
