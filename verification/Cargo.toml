[package]
name = "triple_pool"
version = "0.1.0"
edition = "2021"
publish = false

[dependencies]
cait-sith = { version = "*", features = ["k256"] }
k256 = { version = "0.13", features = ["arithmetic"] }
rand = "0.8"
tracing = "0.1"
