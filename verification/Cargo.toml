[package]
name = "composeable_glue"
version = "0.1.0"
edition = "2021"
publish = false

[dependencies]
slotmap = "1"
rustix = { version = "0.38", features = ["param", "mm"] }
num-traits = "0.2"
