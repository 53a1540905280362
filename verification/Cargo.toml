[package]
name = "buck2_telemetry"
version = "0.1.0"
edition = "2021"
publish = false

[dependencies]
anyhow = "1"
async-trait = "0.1"
aws-config = { version = "1", default-features = false, features = ["rt-tokio", "behavior-version-latest"] }
aws-sdk-s3 = { version = "1", default-features = false, features = ["rt-tokio", "behavior-version-latest"] }
bytes = "1"
clap = { version = "4", features = ["derive"] }
console = "*"
csv = "1"
futures = "0.3"
hostname = "*"
humantime = "2"
jiff = "0.2"
opentelemetry = "*"
opentelemetry-otlp = "*"
opentelemetry_sdk = "*"
prost = "*"
ring = "0.17"
serde = { version = "1", features = ["derive"] }
serde_json = "1"
shlex = "1"
tokio = { version = "1", features = ["rt-multi-thread", "macros", "fs", "io-util", "process", "sync", "time"] }
tonic = { version = "*", default-features = false }
tracing = "0.1"
tracing-opentelemetry = "*"
tracing-subscriber = "0.3"
uuid = { version = "1", features = ["v4"] }
