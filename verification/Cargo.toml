[package]
name = "kosame"
version = "0.1.0"
edition = "2021"
publish = false

[dependencies]
anyhow = "=1.0.104"
clap = { version = "=4.6.7", features = ["derive"] }
pollster = "=1.0.1"
proc-macro2 = { version = "=1.0.107", features = ["span-locations"] }
syn = { version = "=2.0.119", features = ["full", "visit"] }
