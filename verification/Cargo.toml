[package]
name = "worksentry"
version = "0.1.0"
edition = "2021"
publish = false

[dependencies]
tantivy = "0.22"
jieba-rs = "*"
walkdir = "2"
notify = "6"
serde = { version = "1", features = ["derive"] }
serde_json = "1"
dirs = "5"
once_cell = "1"
rusqlite = { version = "*", features = ["bundled"] }

[dev-dependencies]
tempfile = "3"
