[package]
name = "opengraph_scraper"
version = "0.1.0"
edition = "2021"
publish = false

[dependencies]
url = "2"
aide = { version = "0.15", features = ["axum", "axum-json"] }
async-trait = "0.1"
axum = "0.8"
derive-new = "0.7"
garde = { version = "0.22", features = ["derive", "url"] }
indexmap = "2"
o2o = "0.5"
reqwest = { version = "0.12", default-features = false, features = ["rustls-tls"] }
scalar_api_reference = { version = "*", features = ["axum"] }
schemars = "0.9"
serde = { version = "1", features = ["derive"] }
serde_json = "1"
tokio = { version = "1", features = ["full"] }
tower = { version = "0.5", features = ["limit"] }
tower-http = { version = "0.6", features = ["catch-panic", "compression-gzip", "timeout", "trace"] }
tracing = "0.1"
tracing-subscriber = { version = "0.3", features = ["env-filter"] }
