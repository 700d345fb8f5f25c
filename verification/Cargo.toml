[package]
name = "solverlog"
version = "0.1.0"
edition = "2021"
publish = false

[dependencies]
ahash = "*"
flate2 = "*"
rayon = "*"
serde = { version = "*", features = ["derive"] }
serde_json = "*"
rmp-serde = "*"
sqlx = { version = "*", features = ["runtime-tokio", "postgres"] }
tokio = { version = "*", features = ["rt-multi-thread", "macros", "sync"] }
