[package]
name = "sse_core"
version = "0.1.0"
edition = "2021"
publish = false

[dependencies]
fst = "0.4"
jieba-rs = "*"
regex = "1"
anyhow = "1"
axum = "*"
tokio = { version = "1", features = ["full"] }
sqlx = { version = "*", default-features = false, features = ["runtime-tokio", "postgres", "mysql", "uuid", "chrono", "rust_decimal", "json"] }
serde = { version = "1", features = ["derive"] }
serde_json = "1"
uuid = { version = "1", features = ["serde"] }
chrono = "*"
rust_decimal = "*"
dashmap = "*"
