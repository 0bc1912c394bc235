[package]
name = "wasabi"
version = "0.1.0"
edition = "2021"
publish = false

[dependencies]
anyhow = "1"
arc-swap = "1"
async-trait = "0.1"
aws-config = { version = "1", default-features = false, features = ["rt-tokio"] }
aws-sdk-dynamodb = { version = "1", default-features = false, features = ["rt-tokio"] }
aws-sdk-s3 = { version = "1", default-features = false, features = ["rt-tokio"] }
base64 = "=0.22.1"
bytes = "1"
bytesize = "=2.7.0"
chrono = { version = "=0.4.45", default-features = false, features = ["clock"] }
futures = { version = "0.3", default-features = false, features = ["std"] }
futures-util = "0.3"
jsonwebtoken = { version = "=10.4.0", features = ["rust_crypto"] }
jwks = "=0.5.3"
opentelemetry = { version = "*", default-features = false, features = ["trace"] }
percent-encoding = "=2.3.2"
reqwest = { version = "0.13", default-features = false, features = ["rustls"] }
serde = { version = "1", features = ["derive"] }
serde_dynamo = { version = "4", features = ["aws-sdk-dynamodb+1"] }
serde_json = "=1.0.154"
serde_urlencoded = "0.7"
tokio = { version = "1", features = ["rt-multi-thread", "macros", "time", "sync", "signal"] }
tokio-util = "0.7"
tracing = "0.1"
tracing-opentelemetry = { version = "*", default-features = false }
tracing-subscriber = { version = "0.3", default-features = false, features = ["std", "registry"] }
warp = { version = "=0.4.3", features = ["server"] }
