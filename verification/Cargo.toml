[package]
name = "shoplist"
version = "0.1.0"
edition = "2021"
publish = false

[dependencies]
anyhow = "=1.0.104"
argon2 = "=0.5.3"
async-openai = { version = "=0.42.2", features = ["responses"] }
axum = "=0.8.9"
axum-extra = { version = "=0.10.3", features = ["cookie"] }
base64 = "=0.22.1"
clap = { version = "=4.6.7", features = ["derive"] }
config = { version = "=0.15.27", default-features = false, features = ["toml"] }
dialoguer = "=0.12.0"
password-hash = { version = "=0.5.0", features = ["std"] }
rand = "=0.9.5"
sea-query = "=1.0.2"
serde = { version = "=1.0.229", features = ["derive"] }
serde_json = "=1.0.154"
sha2 = "=0.10.9"
sqlx = { version = "=0.8.6", default-features = false, features = ["runtime-tokio", "sqlite", "time", "macros", "migrate"] }
thiserror = "=2.0.21"
time = { version = "=0.3.55", features = ["serde", "formatting", "parsing"] }
tokio = { version = "=1.54.1", features = ["rt-multi-thread", "macros", "net"] }
tower-http = { version = "=0.6.11", features = ["trace"] }
tracing = "=0.1.44"
tracing-subscriber = { version = "=0.3.23", features = ["env-filter", "json"] }
