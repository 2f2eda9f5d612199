[package]
name = "market_insights"
version = "0.1.0"
edition = "2021"
publish = false

[dependencies]
chrono = "*"
serde = { version = "*", features = ["derive"] }
serde_json = "*"
worker = { version = "*", features = ["http", "axum", "d1"] }
axum = { version = "*", default-features = false }
futures-util = "*"
tower-service = "*"
once_cell = "*"
wasm-bindgen = "*"
leptos = { version = "*", features = ["ssr"] }
leptos_axum = { version = "*", default-features = false, features = ["wasm"] }
