[package]
name = "yuru_auto_backup_gdrive"
version = "0.1.0"
edition = "2021"
publish = false

[dependencies]
chrono = { version = "=0.4.45", features = ["serde"] }
regex = "=1.13.1"
serde = { version = "=1.0.229", features = ["derive"] }
serde_json = "=1.0.154"
thiserror = "=2.0.21"
walkdir = "=2.5.0"
tokio = { version = "=1.54.1", features = ["sync"] }
winreg = "=0.52.0"

[dev-dependencies]
tempfile = "=3.27.0"
