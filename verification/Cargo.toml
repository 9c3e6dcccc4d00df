[package]
name = "lcc_lib"
version = "0.1.0"
edition = "2021"
publish = false

[dependencies]
xorf = "=0.13.0"
rand = "=0.8.8"
anyhow = "=1.0.104"
clap = { version = "=4.6.7", features = ["derive"] }
clap-verbosity-flag = "=3.0.4"
log = "=0.4.34"
simple_logger = "=5.2.0"
tokio = { version = "=1.54.1", features = ["full"] }
axum = "=0.8.9"
aide = { version = "=0.15.1", features = ["axum", "axum-json", "axum-tokio", "redoc"] }
schemars = "=0.9.0"
serde = { version = "=1.0.229", features = ["derive"] }
serde_json = "=1.0.154"
indexmap = "=2.14.2"
