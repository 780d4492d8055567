[package]
name = "beat_forge"
version = "0.1.0"
edition = "2021"
publish = false

[dependencies]
anyhow = "1"
cpal = "*"
hound = "3"
rtrb = "0.3"
thiserror = "2"
