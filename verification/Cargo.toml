[package]
name = "free_loop"
version = "0.1.0"
edition = "2021"
publish = false

[dependencies]
cpal = "*"
ctrlc = "*"
rtrb = "*"
serde = { version = "1", features = ["derive"] }
thiserror = "2"
toml = "*"
tracing = "0.1"
tracing-subscriber = { version = "0.3", features = ["env-filter"] }
