[package]
name = "sse_connector"
version = "0.1.0"
edition = "2021"
publish = false

[dependencies]
eventsource-client = "=0.13.0"
tokio = { version = "=1.53.2", default-features = false, features = ["rt", "sync", "time", "macros"] }
futures = "=0.3.34"
