[package]
name = "influxdb3_write"
version = "0.1.0"
edition = "2021"
publish = false

[dependencies]
anyhow = "1"
arrow = { version = "=60.1.0", default-features = false, features = ["ipc"] }
bytes = "1"
chrono = "=0.4.45"
clap = { version = "4", features = ["derive", "env"] }
futures-util = "0.3"
hashbrown = "=0.15.5"
humantime = "2"
num_cpus = "=1.17.0"
object_store = { version = "=0.12.5", default-features = false }
parking_lot = "0.12"
reqwest = { version = "0.12", default-features = false, features = ["json"] }
serde = { version = "1", features = ["derive"] }
serde_json = "1"
sha2 = "=0.10.9"
thiserror = "2"
tokio = { version = "1", features = ["rt", "net", "time", "sync", "io-util", "macros", "fs"] }
tokio-rustls = { version = "0.26", default-features = false, features = ["tls12"] }
tokio-util = "0.7"
tracing = "0.1"
uuid = { version = "=1.29.0", features = ["v7"] }
