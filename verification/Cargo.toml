[package]
name = "signet"
version = "0.1.2"
edition = "2021"
publish = false

[dependencies]
anyhow = "1"
askama = "=0.16.1"
async-stripe = "=1.0.0-rc.10"
async-stripe-checkout = { version = "=1.0.0-rc.10", features = ["checkout_session"] }
async-stripe-product = { version = "=1.0.0-rc.10", features = ["price", "product"] }
async-stripe-shared = "=1.0.0-rc.10"
async-stripe-types = "=1.0.0-rc.10"
async-stripe-webhook = "=1.0.0-rc.10"
axum = "=0.8.9"
base64 = "=0.22.1"
chrono = "=0.4.45"
ciborium = "=0.2.2"
clap = { version = "4", features = ["derive"] }
ed25519-dalek = "=2.2.0"
hex = "=0.4.3"
polymail = { version = "=0.1.7", features = ["config", "smtp"] }
pulldown-cmark = "=0.13.6"
rand = "=0.8.8"
rustls = { version = "0.23", default-features = false, features = ["ring", "std"] }
serde = { version = "1", features = ["derive"] }
serde_json = "1"
sqlx = { version = "=0.8.6", default-features = false, features = ["runtime-tokio", "sqlite"] }
tokio = { version = "1", features = ["full"] }
toml = "=1.1.8"
toml_edit = "=0.25.17"
tower-http = { version = "=0.7.1", features = ["set-header"] }
tower_governor = "=0.8.0"
tracing = "0.1"
tracing-subscriber = { version = "0.3", features = ["env-filter"] }
