[package]
name = "game_sockets"
version = "0.1.0"
edition = "2021"
publish = false

[dependencies]
bytes = "1"
clap = { version = "4", features = ["derive"] }
crc32fast = "1"
csv = "1"
futures = "0.3"
gns = "*"
plotters = { version = "0.3", default-features = false, features = ["svg_backend", "all_series", "all_elements"] }
quinn = "0.10"
rand = "0.9"
rcgen = "0.11"
rustls = { version = "0.21", features = ["dangerous_configuration"] }
serde = { version = "1", features = ["derive"] }
serde_json = "1"
thiserror = "1"
tokio = { version = "1", features = ["full"] }
tokio-util = { version = "0.7", features = ["codec"] }
tracing = "0.1"
tracing-subscriber = { version = "0.3", features = ["env-filter"] }
uuid = { version = "1", features = ["v4"] }
