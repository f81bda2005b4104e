[package]
name = "mimir"
version = "0.1.0"
edition = "2021"
publish = false

[dependencies]
chrono = { version = "0.4", features = ["serde"] }
iso_currency = "0.5"
csv = "1"
axum = { version = "0.8", features = ["ws"] }
tokio = { version = "1", features = ["full"] }
sqlx = { version = "0.8", default-features = false, features = ["sqlite", "runtime-tokio", "chrono", "migrate", "macros", "derive"] }
reqwest = { version = "0.12", default-features = false, features = ["json", "rustls-tls"] }
serde = { version = "1", features = ["derive"] }
serde_json = "1"
serde_with = { version = "3", features = ["chrono_0_4"] }
rust_xlsxwriter = "*"
tower-http = { version = "0.6", features = ["cors", "fs"] }
tracing = "0.1"
tracing-subscriber = { version = "0.3", features = ["env-filter", "json", "time", "local-time"] }
tracing-appender = "0.2"
tracing-log = "0.2"
time = { version = "0.3", features = ["macros"] }
futures-util = { version = "0.3", features = ["sink"] }
tokio-util = { version = "0.7", features = ["io"] }
once_cell = "1"
secrecy = { version = "0.10", features = ["serde"] }
config = { version = "0.15", default-features = false, features = ["toml"] }
