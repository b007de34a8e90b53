[package]
name = "node_proxy"
version = "0.1.0"
edition = "2021"
publish = false

[dependencies]
bech32 = "=0.12.0"
argon2 = "=0.6.0"
leaky-bucket = "=1.1.2"
tokio = { version = "=1.53.2", features = ["rt", "rt-multi-thread", "time", "net", "io-util", "sync", "macros"] }
tokio-rustls = "*"
rustls-pemfile = "*"
kube = { version = "=3.1.0", features = ["runtime", "derive", "client", "rustls-tls"] }
k8s-openapi = { version = "=0.27.1", features = ["latest"] }
schemars = "*"
serde = { version = "*", features = ["derive"] }
serde_json = "*"
futures = "*"
dotenv = "*"
