[package]
name = "resy"
version = "0.1.0"
edition = "2021"
publish = false

[dependencies]
async-stream = "0.3"
aws-config = { version = "1", default-features = false }
aws-credential-types = "1"
aws-sdk-s3 = { version = "1", default-features = false, features = ["default-https-client", "rt-tokio"] }
chrono = "0.4"
futures-core = "0.3"
secrecy = "0.10"
serde = { version = "1", features = ["derive"] }
sqlx = { version = "0.8", default-features = false, features = ["runtime-tokio", "sqlite"] }
thiserror = "2"
tokio = { version = "1", features = ["macros", "rt-multi-thread", "sync"] }
tokio-stream = "0.1"
zeroize = { version = "1", features = ["derive"] }

[dev-dependencies]
tempfile = "3"
