[package]
name = "game-core"
version = "0.1.0"
edition = "2021"
publish = false

[dependencies]
serde = { version = "1", features = ["derive"] }
bincode = "1"
wasm-bindgen = "0.2"
js-sys = "0.3"
axum = { version = "0.7", features = ["ws"] }
tokio = { version = "1", features = ["full"] }
tower-http = { version = "0.5", features = ["fs"] }
futures-util = { version = "0.3", features = ["sink"] }
