[package]
name = "aqbot_core"
version = "0.1.0"
edition = "2021"
publish = false

[dependencies]
serde = { version = "1", features = ["derive"] }
serde_json = "1"
toml_edit = "*"
chrono = "0.4"
aws-config = "1"
aws-credential-types = "1"
aws-sdk-s3 = "1"
libsqlite3-sys = { version = "*", features = ["bundled"] }
sea-orm-migration = { version = "1", default-features = false }
async-trait = "0.1"
