[package]
name = "dew_host"
version = "0.1.0"
edition = "2021"
publish = false

[dependencies]
dirs = "=6.0.0"
mlua = { version = "=0.12.2", features = ["luau", "send"] }
rbx_reflection = "=7.0.0"
rbx_reflection_database = "=3.0.0"
rbx_types = "=3.1.0"
serde = { version = "=1.0.229", features = ["derive"] }
serde_json = "=1.0.154"
