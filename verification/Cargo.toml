[package]
name = "forum_archive"
version = "0.1.0"
edition = "2021"
publish = false

[dependencies]
rocket = { version = "=0.5.2", features = ["json"] }
rocket_sync_db_pools = { version = "=0.1.0", features = ["sqlite_pool"] }
serde_json = "=1.0.154"
