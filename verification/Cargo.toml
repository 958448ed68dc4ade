[package]
name = "airwolf"
version = "0.1.0"
edition = "2021"
publish = false

[dependencies]
heapless = "=0.9.3"
pixel8 = { version = "=0.2.0", features = ["physics", "plume-effects"] }
