[package]
name = "entmoot"
version = "0.1.0"
edition = "2021"
publish = false

[dependencies]
anyhow = "1"
bytes = "1"
clap = { version = "4", features = ["derive"] }
governor = "0.10"
jsonschema = { version = "*", default-features = false }
jsonwebtoken = "9"
moka = { version = "0.12", features = ["sync"] }
mqttbytes = "0.6"
rustls-pemfile = "2"
serde = { version = "1", features = ["derive"] }
serde_json = "1"
sha2 = "0.10"
tokio = { version = "1", features = ["full"] }
tokio-rustls = { version = "0.26", default-features = false, features = ["logging", "ring", "tls12"] }
toml = "0.8"
tracing = "0.1"
tracing-subscriber = { version = "0.3", features = ["env-filter"] }
x509-parser = "0.17"
zenoh = { version = "1", default-features = false, features = ["transport_tcp", "transport_tls"] }
