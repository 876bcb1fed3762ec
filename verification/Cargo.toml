[package]
name = "dioxus_portal"
version = "0.1.0"
edition = "2021"
publish = false

[dependencies]
dioxus-core = "=0.6.3"
dioxus-lib = "=0.6.2"
euclid = "=0.22.14"
serde = { version = "=1.0.229", features = ["derive"] }
