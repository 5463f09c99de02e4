[package]
name = "dungeon_crawler_world"
version = "0.0.7"
edition = "2021"
publish = false

[dependencies]
semver = "1"
chrono = { version = "0.4", default-features = false, features = ["std", "clock"] }
rand = "0.8"
serde = { version = "1", features = ["derive"] }
serde_json = "1"
log = "0.4"
egui = "0.31"
reqwest = { version = "0.12", default-features = false, features = ["blocking", "json", "rustls-tls"] }
