[package]
name = "websearch"
version = "0.1.0"
edition = "2021"
publish = false

[dependencies]
kuchiki = "0.8"
html5ever = "0.25"
scraper = "*"
url = "2"
flume = "*"
clap = { version = "*", features = ["derive"] }
reqwest = { version = "*", default-features = false }
sqlx = { version = "*", default-features = false, features = ["sqlite", "runtime-tokio", "any"] }
tokio = { version = "1", features = ["macros", "rt-multi-thread", "signal", "sync", "time"] }
tokio-stream = "*"
tracing = "*"
tracing-subscriber = "*"
