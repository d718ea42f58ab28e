[package]
name = "simplicityhl_lsp"
version = "0.1.0"
edition = "2021"
publish = false

[dependencies]
env_logger = "=0.11.11"
miniscript = "=12.3.8"
ropey = "=1.6.1"
serde = { version = "=1.0.229", features = ["derive"] }
serde_json = "=1.0.154"
simplicityhl = { version = "=0.8.0", features = ["docs"] }
thiserror = "=2.0.21"
tokio = { version = "=1.54.1", features = ["full"] }
toml = "=1.1.8"
tower-lsp-server = "=0.22.1"

[dev-dependencies]
tempfile = "=3.27.0"
