[package]
name = "eq3_max_cube_rs"
version = "0.1.0"
edition = "2021"
publish = false

[dependencies]
anyhow = "1"
async-std = "1"
base64 = "0.22"
log = "0.4"
serde = { version = "1", features = ["derive"] }
simple_logger = "5"
tokio = { version = "1", features = ["macros", "rt-multi-thread"] }
