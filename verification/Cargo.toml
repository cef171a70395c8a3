[package]
name = "chronoscope_core"
version = "0.1.0"
edition = "2021"
publish = false

[dependencies]
async-lock = "3"
chrono = { version = "0.4", default-features = false, features = ["std", "serde"] }
futures-util = { version = "0.3", default-features = false, features = ["std"] }
hex = "0.4"
oxilangtag = { version = "0.1", features = ["serde"] }
schemars = "1"
serde = { version = "1", features = ["derive"] }
serde_json = "1"
sha2 = "0.10"
strum = { version = "0.27", features = ["derive"] }
thiserror = "2"
url = { version = "2", features = ["serde"] }
urlencoding = "2"
