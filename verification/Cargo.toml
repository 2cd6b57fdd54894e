[package]
name = "chat_hub"
version = "0.1.0"
edition = "2021"
publish = false

[dependencies]
ctrlc = "3"
env_logger = "*"
log = "0.4"
thiserror = "*"

[dev-dependencies]
serde_json = "1"
