[package]
name = "workbindr"
version = "0.1.0"
edition = "2021"
publish = false

[dependencies]
serde = { version = "1", features = ["derive"] }
serde_json = "1"
rocket = { version = "0.5", features = ["json"] }
rocket_cors = "0.6"
reqwest = { version = "0.11", default-features = false, features = ["json"] }
dotenvy = "0.15"
