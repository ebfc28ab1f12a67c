[package]
name = "wordgame"
version = "0.1.0"
edition = "2021"
publish = false

[dependencies]
leptos = "=0.6.15"
leptos_meta = "=0.6.15"
leptos_router = "=0.6.15"
leptos-spin = "=0.1.0"
rand = "=0.8.8"
serde = { version = "=1.0.229", features = ["derive"] }
spin-sdk = "=2.2.0"
