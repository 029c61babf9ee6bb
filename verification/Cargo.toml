[package]
name = "export_signal_desktop"
version = "0.1.0"
edition = "2021"
publish = false

[dependencies]
rusqlite = { version = "=0.40.2", features = ["bundled-sqlcipher"] }
clap = { version = "*", features = ["derive"] }
rayon = "*"

[dev-dependencies]
serde_json = "*"
