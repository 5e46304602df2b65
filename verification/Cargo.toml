[package]
name = "brewmble"
version = "0.1.0"
edition = "2021"
publish = false

[dependencies]
humantime = "=2.4.0"
serde = { version = "=1.0.229", features = ["derive"] }
serde_json = "=1.0.154"
serde_yaml = "=0.9.34"
clap = { version = "=4.6.7", features = ["derive", "env"] }
reqwest = { version = "=0.12.28", default-features = false, features = ["blocking", "json", "rustls-tls"] }
mdns-sd = "=0.13.11"
flume = "=0.11.1"
keyring = { version = "=3.6.3", features = ["linux-native", "apple-native", "windows-native"] }
tabwriter = "=1.4.1"
home = "=0.5.12"
tokio = { version = "=1.54.1", features = ["rt-multi-thread", "macros", "net", "signal", "process"] }
axum = "=0.8.9"
tower-http = { version = "=0.6.11", features = ["trace"] }
tracing = "=0.1.44"
tracing-subscriber = { version = "=0.3.23", features = ["env-filter"] }
uuid = { version = "=1.29.0", features = ["v4"] }
gethostname = "=0.5.0"
