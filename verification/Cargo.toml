[package]
name = "gluebuddy"
version = "0.1.0"
edition = "2021"
publish = false

[dependencies]
anyhow = "1"
futures = "0.3"
keycloak = "*"
log = "0.4"
reqwest = "*"
tokio = { version = "1", features = ["sync"] }
