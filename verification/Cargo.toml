[package]
name = "agent_harness"
version = "0.1.0"
edition = "2021"
publish = false

[dependencies]
anthropic-ai-sdk = "*"
anyhow = "*"
async-trait = "*"
chrono = "*"
cron = "*"
dotenvy = "*"
fs4 = { version = "0.13.1", features = ["sync"] }
inquire = "*"
regex = "*"
serde = { version = "*", features = ["derive"] }
serde_json = "*"
serde_yaml = "*"
strum_macros = "*"
tera = { version = "1.20.1", default-features = false }
tokio = { version = "*", features = ["full"] }
walkdir = "*"
wildmatch = "*"
