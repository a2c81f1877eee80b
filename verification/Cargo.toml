[package]
name = "klyppd"
version = "0.2.0"
edition = "2021"
publish = false

[dependencies]
base64 = "0.22"
serde = { version = "1", features = ["derive"] }
serde_json = "1"
dirs = "5"
chrono = "0.4"
libc = "0.2"
uuid = { version = "1", features = ["v4"] }
notify = "6"
evdev = "0.12"
aws-sdk-s3 = { version = "1", features = ["behavior-version-latest"] }
aws-credential-types = "1"
tokio = { version = "1", features = ["rt-multi-thread"] }
