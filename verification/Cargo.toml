[package]
name = "termweb"
version = "0.1.0"
edition = "2021"
publish = false

[dependencies]
axum = "*"
serde = { version = "*", features = ["derive"] }
tokio = { version = "*", features = ["macros", "rt-multi-thread", "net", "sync"] }
tower-http = { version = "*", features = ["cors"] }
tracing-subscriber = { version = "*", features = ["env-filter", "fmt"] }
