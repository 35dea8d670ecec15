[package]
name = "lexicon"
version = "0.1.0"
edition = "2021"
publish = false

[dependencies]
anyhow = "1"
axum = "0.8"
bb8 = "*"
bb8-postgres = "*"
dotenv = "0.15"
once_cell = "1"
openai_api_rust = "*"
serde = { version = "1", features = ["derive"] }
serde_json = "1"
tokio = { version = "1", features = ["full"] }
tokio-postgres = "0.7"
