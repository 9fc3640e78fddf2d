[package]
name = "sticker"
version = "0.1.0"
edition = "2021"
publish = false

[dependencies]
url = "2"
seahash = "4"
indexmap = "2"
toml_edit = "0.22"
serde = { version = "1", features = ["derive"] }
serde_json = "1"
reqwest = { version = "0.12", default-features = false, features = ["stream"] }
tokio = { version = "1", features = ["fs", "rt", "macros"] }
futures = "0.3"
bytes = "1"
chrono = { version = "0.4", default-features = false, features = ["clock", "std"] }
log = "0.4"
thiserror = "2"
