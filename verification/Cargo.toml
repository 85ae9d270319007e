[package]
name = "flat_head"
version = "0.1.0"
edition = "2021"
publish = false

[dependencies]
url = "=2.5.8"
object_store = { version = "=0.14.2", features = ["aws", "gcp", "http"] }
tokio = { version = "=1.53.2", features = ["macros", "rt-multi-thread", "sync"] }
futures = "=0.3.34"
clap = { version = "=4.6.7", features = ["derive"] }
anyhow = "=1.0.104"
thiserror = "=2.0.21"
bytes = "=1.12.1"
log = "=0.4.34"
env_logger = "=0.11.11"
dotenv = "=0.15.0"
tree_hash = "*"
