[package]
name = "s3dav"
version = "0.1.0"
edition = "2021"
publish = false

[dependencies]
aws-config = "*"
aws-sdk-s3 = "*"
salvo = { version = "*", features = ["basic-auth"] }
tokio = { version = "*", features = ["macros", "rt-multi-thread"] }
dotenv = "*"
