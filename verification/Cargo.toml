[package]
name = "clickhouse_spans"
version = "0.1.0"
edition = "2021"
publish = false

[dependencies]
aws-config = "=1.13.0"
aws-sdk-kinesis = "=1.130.0"
aws_lambda_events = "=1.2.1"
chrono = "=0.4.45"
lambda-extension = "=1.1.1"
lambda-lw-http-router = "=0.7.0"
lambda_runtime = { version = "=1.5.0", features = ["opentelemetry"] }
opentelemetry = "=0.32.0"
opentelemetry-proto = { version = "0.32", default-features = false, features = ["gen-tonic-messages", "trace", "with-serde"] }
opentelemetry_sdk = { version = "=0.32.1", features = ["rt-tokio"] }
serde = "=1.0.229"
serde_json = "=1.0.154"
tokio = { version = "=1.54.1", features = ["full"] }
uuid = { version = "=1.29.0", features = ["v4"] }
