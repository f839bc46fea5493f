[package]
name = "dumbarp"
version = "0.1.0"
rust-version = "1.95"
edition = "2021"
publish = false

[dependencies]
anyhow = "1"
axum = "*"
aya = "0.14"
aya-ebpf = "0.1"
chrono = "0.4"
clap = { version = "4", features = ["derive"] }
futures = "0.3"
k8s-openapi = { version = "0.28", features = ["latest"] }
kube = { version = "4", default-features = false, features = ["client", "derive"] }
libc = "0.2"
mozim = "0.2"
netlink-packet-route = "*"
network-types = "*"
reqwest = { version = "*", default-features = false, features = ["json"] }
rtnetlink = "*"
schemars = "*"
serde = { version = "1", features = ["derive"] }
serde_json = "1"
tokio = { version = "1", features = ["macros", "net", "rt-multi-thread", "signal", "sync", "time"] }
toml = "0.9"
tracing = "0.1"
tracing-subscriber = { version = "0.3", features = ["env-filter"] }
url = { version = "2", features = ["serde"] }
