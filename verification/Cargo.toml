[package]
name = "weecord"
version = "0.3.0"
edition = "2021"
publish = false

[dependencies]
twilight-mention = "=0.5.1"
twilight-model = "=0.5.4"
twilight-cache-inmemory = { version = "=0.5.3", features = ["permission-calculator"] }
twilight-http = "=0.5.7"
twilight-gateway = "=0.5.5"
tokio = { version = "=1.54.1", features = ["rt-multi-thread", "sync", "time"] }
futures-util = "=0.3.34"
chrono = "=0.4.45"
rand = "=0.8.8"
regex = "=1.13.1"
weechat = { version = "=0.4.0", features = ["async"] }
