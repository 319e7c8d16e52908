[package]
name = "imgdock"
version = "0.1.0"
edition = "2021"
publish = false

[dependencies]
aes-gcm = "0.10"
hex = "0.4"
rand = "0.8"
urlencoding = "2"
actix-web = { version = "4", default-features = false, features = ["macros"] }
actix-cors = "0.7"
aws-config = { version = "1", default-features = false, features = ["behavior-version-latest"] }
aws-credential-types = { version = "1", default-features = false }
aws-sdk-s3 = { version = "1", default-features = false }
dotenvy = "0.15"
env_logger = { version = "0.11", default-features = false }
fred = "9"
log = "0.4"
mongodb = "3"
serde = { version = "1", features = ["derive"] }
serde_json = "1"
