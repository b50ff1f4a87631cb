[package]
name = "notification_dispatch"
version = "0.1.0"
edition = "2021"
publish = false

[dependencies]
serde = { version = "*", features = ["derive"] }
candid = "*"
dotenv = "*"
env_logger = "*"
log = "*"
tokio = { version = "*", features = ["macros", "rt"] }
lambda_runtime = "*"
