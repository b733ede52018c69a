[package]
name = "sse_plugin_translator"
version = "0.1.0"
edition = "2021"
publish = false

[dependencies]
aho-corasick = "1"
chrono = "0.4"
esp_extractor = "*"
rayon = "1"
rusqlite = { version = "*", features = ["bundled"] }
serde = { version = "1", features = ["derive"] }
serde_json = "1"
walkdir = "2"
