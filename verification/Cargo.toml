[package]
name = "ua_gate"
version = "0.1.0"
edition = "2021"
publish = false

[dependencies]
actix-web = { version = "4", default-features = false }
futures = "0.3"

[dev-dependencies]
regex = "1"
