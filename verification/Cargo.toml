[package]
name = "spider_enterprise_crawler"
version = "0.1.0"
edition = "2021"
publish = false

[dependencies]
anyhow = "=1.0.104"
config = { version = "=0.14.1", default-features = false, features = ["yaml"] }
cookie = "=0.18.2"
dotenv = "=0.15.0"
hyper = { version = "=0.14.32", features = ["server", "http1", "tcp"] }
minio = "*"
prometheus = { version = "=0.13.4", default-features = false }
redis = { version = "=0.25.5", features = ["tokio-comp"] }
reqwest = { version = "=0.12.28", default-features = false, features = ["rustls-tls"] }
serde = { version = "=1.0.229", features = ["derive"] }
serde_yaml = "=0.9.34"
spider = { version = "=2.53.9", default-features = false, features = ["sync"] }
time = "=0.3.55"
tokio = { version = "=1.54.1", features = ["full"] }
tracing = "=0.1.44"
tracing-subscriber = { version = "=0.3.23", features = ["env-filter", "json"] }
urlencoding = "=2.1.3"
