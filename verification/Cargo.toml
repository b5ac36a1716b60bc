[package]
name = "golftrack"
version = "0.1.0"
edition = "2021"
publish = false

[dependencies]
headless_chrome = "=0.8.0"
