[package]
name = "demail"
version = "0.1.0"
edition = "2021"
publish = false

[dependencies]
ammonia = "=4.2.4"
chrono = "=0.4.45"
env_logger = "=0.10.2"
imap = "=2.4.1"
keyring = "=1.2.1"
lettre = { version = "=0.11.23", default-features = false, features = ["builder", "smtp-transport", "tokio1", "tokio1-native-tls"] }
log = "=0.4.34"
mail-parser = "=0.11.9"
native-tls = "=0.2.18"
oauth2 = "=4.4.2"
r2d2 = "=0.8.10"
r2d2_sqlite = { version = "=0.24.0", features = ["bundled"] }
reqwest = { version = "=0.11.27", features = ["json"] }
rusqlite = { version = "=0.31.0", features = ["bundled"] }
sanitize-filename = "=0.5.0"
serde = { version = "=1.0.229", features = ["derive"] }
serde_json = "=1.0.154"
thiserror = "=1.0.69"
tokio = { version = "=1.54.1", features = ["rt-multi-thread", "time", "macros", "sync"] }
tracing = "=0.1.44"
validator = "=0.18.1"
