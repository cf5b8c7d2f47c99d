[package]
name = "tests_turmoil"
version = "0.1.0"
edition = "2021"
publish = false

[dependencies]
bincode = "=1.3.3"
ctrlc = "=3.5.2"
futures = "=0.3.34"
openraft = { version = "=0.10.0-alpha.37", features = ["metrics-logids", "serde"] }
openraft-rt = "=0.10.0-alpha.37"
openraft-rt-tokio = "=0.10.0-alpha.37"
rand = { version = "=0.8.8", features = ["small_rng"] }
serde = { version = "=1.0.229", features = ["derive"] }
serde_json = "=1.0.154"
thiserror = "=2.0.21"
tokio = { version = "=1.54.1", features = ["full"] }
tracing = "=0.1.44"
tracing-subscriber = { version = "=0.3.23", features = ["env-filter"] }
turmoil = "=0.6.6"
uuid = { version = "=1.29.0", features = ["v4"] }
