[package]
name = "overrider"
version = "0.1.0"
edition = "2021"
publish = false

[dependencies]
syn = { version = "1", features = ["full"] }
proc-macro2 = "1"
glob = "0.3"
