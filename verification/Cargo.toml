[package]
name = "buck2_engine"
version = "0.1.0"
edition = "2021"
publish = false

[dependencies]
dupe = "=0.9.1"
gazebo = "=0.8.1"
regex = "=1.13.1"

[dev-dependencies]
anyhow = "1"
