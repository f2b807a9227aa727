[package]
name = "mindurka_bot"
version = "0.1.0"
edition = "2021"
publish = false

[dependencies]
rust_decimal = { version = "1", features = ["serde"] }
humantime = "2"
serde = { version = "1", features = ["derive"] }
toml = "0.9"
url = { version = "2", features = ["serde"] }
clap = { version = "4", features = ["derive"] }
tokio = { version = "1", features = ["full"] }
tracing = "0.1"
tracing-subscriber = { version = "0.3", features = ["env-filter"] }
tracing-unwrap = "1"
anyhow = "1"
async-trait = "0.1"
poise = "0.6"
serde_tuple = "1"
serde_with = { version = "3", default-features = false, features = ["macros"] }

[dev-dependencies]
nom = "8"
