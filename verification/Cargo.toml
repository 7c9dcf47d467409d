[package]
name = "hiroz"
version = "0.1.0"
edition = "2021"
publish = false

[dependencies]
anyhow = "1"
parking_lot = "0.12"
prettyplease = "0.2"
proc-macro2 = "1"
pyo3 = { version = "0.22", features = ["abi3-py38", "extension-module"] }
quote = "1"
ratatui = "0.29"
syn = { version = "2", features = ["full", "parsing", "printing"] }
tokio = { version = "1", features = ["macros", "rt-multi-thread", "sync", "time"] }
tracing = "0.1"
tracing-subscriber = { version = "0.3", features = ["env-filter", "json"] }
zenoh = { version = "1", default-features = false, features = ["transport_tcp"] }
