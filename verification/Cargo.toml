[package]
name = "cremeux"
version = "0.1.0"
edition = "2021"
publish = false

[dependencies]
serenity = { version = "0.10", features = ["collector", "unstable_discord_api"] }
sha1 = "0.6"
airtable-api = "0.1"
anyhow = "1"
kankyo = "0.3"
serde = { version = "1", features = ["derive"] }
tokio = { version = "1", features = ["full"] }
