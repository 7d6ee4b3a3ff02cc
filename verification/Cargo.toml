[package]
name = "dataset_export"
version = "0.1.0"
edition = "2021"
publish = false

[dependencies]
zip = { version = "*", default-features = false }
serde = { version = "*", features = ["derive"] }
serde_json = "*"
uuid = { version = "*", features = ["v4", "serde"] }
chrono = { version = "*", features = ["serde"] }
futures = "*"
axum = { version = "*", features = ["multipart"] }
tokio = { version = "*", features = ["macros", "rt-multi-thread"] }
sqlx = { version = "*", default-features = false, features = ["runtime-tokio", "tls-rustls", "postgres", "uuid", "chrono", "json", "macros"] }
aws-config = "*"
aws-sdk-s3 = "*"
reqwest = { version = "*", default-features = false, features = ["json", "multipart", "rustls-tls"] }
validator = { version = "*", features = ["derive"] }
tower = "*"
tower-http = { version = "*", features = ["cors"] }
lambda_http = "*"
image = { version = "*", default-features = false, features = ["png", "jpeg"] }
