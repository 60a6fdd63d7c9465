[package]
name = "xcmd_base"
version = "0.1.0"
edition = "2021"
publish = false

[dependencies]
urlencoding = "2"
semver = "1"
serde = { version = "1", features = ["derive"] }
serde_json = "1"
actix-web = { version = "4", default-features = false, features = ["macros"] }
actix-cors = "0.6"
futures-util = "0.3"
parking_lot = "0.12"
sysinfo = "0.29"
log = "0.4"
env_logger = "0.10"
tracing = "0.1"
tracing-actix-web = "0.7"
aws-config = "0.55"
aws-sdk-s3 = "0.28"
aws-types = "0.55"
ssh2 = "0.9"
rcgen = "0.11"
rustls = "0.21"
rustls-pemfile = "1"
open = "5"
