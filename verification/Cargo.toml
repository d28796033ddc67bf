[package]
name = "bencher_core"
version = "0.1.0"
edition = "2021"
publish = false

[dependencies]
serde = { version = "1", features = ["derive"] }
serde_json = { version = "1", features = ["arbitrary_precision"] }
thiserror = "1"
tokio = { version = "1", features = ["rt", "rt-multi-thread", "macros"] }
mail-send = "0.4"
slog = "2"
slug = "0.1"
rand = "0.8"
uuid = { version = "1", features = ["v4"] }
url = "2"
