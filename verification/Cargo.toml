[package]
name = "spite_core"
version = "0.1.0"
edition = "2021"
publish = false

[dependencies]
ammonia = "*"
base64 = "0.22"
chrono = "0.4"
mail-builder = "*"
serde = { version = "1", features = ["derive"] }
serde_json = "1"
thiserror = "*"
tokio = { version = "1", features = ["rt-multi-thread", "macros", "time", "sync"] }
tracing = "0.1"
reqwest = { version = "0.12", default-features = false, features = ["json"] }
oauth2 = { version = "5", default-features = false, features = ["reqwest"] }
keyring = "3"
rusqlite = { version = "*", features = ["bundled", "functions"] }
rusqlite_migration = "*"
