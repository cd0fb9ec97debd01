[package]
name = "streaming_sql"
version = "0.1.0"
edition = "2021"
publish = false

[dependencies]
tokio = { version = "*", features = ["rt-multi-thread", "macros", "sync", "time"] }
tokio-postgres = "*"
postgres = "*"
futures = "*"
bytes = "*"
serde_json = "*"
sqlparser = "*"
dotenv = "*"
tracing = "*"
tracing-subscriber = { version = "*", features = ["env-filter"] }
