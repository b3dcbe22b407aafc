[package]
name = "profiling"
version = "0.1.0"
edition = "2021"
publish = false

[dependencies]
pprof = { version = "*", features = ["prost-codec"] }
uuid = { version = "1", features = ["v4"] }
serde = { version = "1", features = ["derive"] }
serde_json = "1"
tokio = { version = "1", features = ["full"] }
tonic = "0.12"
prost = "0.13"
actix-web = "4"
actix-cors = "0.7"
ctrlc = "3"
env_logger = "0.11"
log = "0.4"
