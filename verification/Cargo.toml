[package]
name = "benchmark_client"
version = "0.1.0"
edition = "2021"
publish = false

[dependencies]
chrono = "0.4"
clap = { version = "4", features = ["derive"] }
deadpool-postgres = "0.14"
futures = "0.3"
prost = "0.13"
rand = "0.8"
reqwest = { version = "0.12", default-features = false }
serde = { version = "1", features = ["derive"] }
sysinfo = "0.30"
tokio = { version = "1", features = ["macros", "rt-multi-thread", "sync", "time"] }
tokio-postgres = { version = "0.7", features = ["with-chrono-0_4"] }
tonic = "0.12"
