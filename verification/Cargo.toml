[package]
name = "enum_router"
version = "0.1.0"
edition = "2021"
publish = false

[dependencies]
proc-macro2 = "1"
quote = "1"
syn = { version = "1", features = ["full"] }

[dev-dependencies]
axum = { version = "0.8", default-features = false }
tokio = { version = "1", features = ["rt"] }
tower = { version = "0.5", features = ["util"] }
