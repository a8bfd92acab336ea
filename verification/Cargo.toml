[package]
name = "notes-cf"
version = "0.1.0"
edition = "2021"
publish = false

[dependencies]
memchr = "*"
regex = "*"
serde = { version = "*", features = ["derive"] }
worker = { version = "*", features = ["http", "axum"] }
axum = { version = "*", default-features = false }
leptos = { version = "*", features = ["ssr"] }
leptos_axum = { version = "*", default-features = false }
leptos_meta = "*"
leptos_router = "*"
tower-service = "*"
wasm-bindgen = "*"
