[package]
name = "zisraw"
version = "0.1.0"
edition = "2021"
publish = false

[dependencies]
chrono = "=0.4.45"
xmltree = { version = "=0.12.0", features = ["attribute-sorted"] }
uuid = "=1.27.0"
rusqlite = { version = "=0.40.2", features = ["bundled"] }
argh = "=0.1.19"
serde = { version = "=1.0.229", features = ["derive"] }
serde_json = "=1.0.151"
