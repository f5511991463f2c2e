[package]
name = "timewise"
version = "0.1.0"
edition = "2021"
publish = false

[dependencies]
active-win-pos-rs = "*"
async-trait = "0.1"
auto-launch = "*"
axum = "0.8"
chrono = "0.4"
directories = "*"
mdns-sd = "*"
parking_lot = "0.12"
regex = "1"
reqwest = { version = "0.12", default-features = false, features = ["json"] }
rusqlite = { version = "*", features = ["bundled"] }
serde = { version = "1", features = ["derive"] }
serde_json = "1"
thiserror = "2"
tokio = { version = "1", features = ["macros", "net", "rt-multi-thread", "sync", "time"] }
tower-http = { version = "0.6", features = ["cors"] }
uuid = { version = "1", features = ["v4"] }
