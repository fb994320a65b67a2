[package]
name = "filter_stats"
version = "0.1.0"
edition = "2021"
publish = false

[dependencies]
arrow = "*"
