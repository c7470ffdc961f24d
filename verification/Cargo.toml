[package]
name = "infra-types"
version = "0.1.0"
edition = "2021"
publish = false

[dependencies]
sha2 = "0.10"
flate2 = "1"
serde_json = "1"
serde = { version = "1", features = ["derive"] }
serde_yaml = "0.9"
thiserror = "1"
anyhow = "1"
clap = { version = "4", features = ["derive"] }
rusqlite = { version = "0.31", features = ["bundled"] }
aws-config = "1"
aws-sdk-s3 = "1"
aws-sdk-ssm = "1"
aws-sdk-sts = "1"
aws-sdk-ecr = "1"
aws-sdk-ecs = "1"
aws-sdk-lambda = "1"
aws-sdk-dynamodb = "1"
aws-sdk-secretsmanager = "1"
axum = "0.7"
tower-http = { version = "0.5", features = ["cors", "trace"] }
utoipa = "4"
askama = "0.12"
askama_axum = "0.4"
reqwest = { version = "0.12", default-features = false, features = ["rustls-tls"] }
