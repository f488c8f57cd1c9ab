[package]
name = "bencher"
version = "0.1.0"
edition = "2021"
publish = false

[dependencies]
anyhow = "=1.0.104"
aws-config = { version = "=1.13.0", features = ["behavior-version-latest"] }
aws-sdk-cloudwatchlogs = "=1.162.0"
aws-sdk-dynamodb = "=1.136.0"
aws-sdk-ecr = "=1.138.0"
aws-sdk-iam = "=1.133.0"
aws-sdk-kms = "=1.129.0"
aws-sdk-lambda = "=1.156.0"
aws-sdk-s3 = "=1.157.0"
aws-sdk-sts = "=1.124.0"
aws-smithy-runtime-api = "=1.19.2"
base64 = "=0.22.1"
clap = { version = "=4.6.7", features = ["derive"] }
flate2 = "=1.1.10"
futures = "=0.3.34"
jsonwebtoken = { version = "=10.4.0", features = ["aws_lc_rs"] }
lambda_http = "=1.3.2"
lambda_runtime = "=1.5.0"
regex = "=1.13.1"
serde = { version = "=1.0.229", features = ["derive"] }
serde_json = "=1.0.154"
tar = "=0.4.46"
tokio = { version = "=1.54.1", features = ["full"] }
tracing-subscriber = { version = "=0.3.23", features = ["env-filter"] }
uuid = { version = "=1.29.0", features = ["v4"] }
zip = { version = "=8.6.0", default-features = false, features = ["deflate"] }
