[package]
name = "simbad_resolver"
version = "0.5.0"
edition = "2021"
publish = false

[dependencies]
async-trait = "0.1"
redb = "3"
reqwest = { version = "0.13", default-features = false, features = ["query", "rustls"] }
serde = { version = "1", features = ["derive"] }
serde_json = "1"
skymath = "0.6"
thiserror = "2"
time = { version = "0.3", features = ["formatting"] }
tokio = { version = "1", features = ["rt-multi-thread", "macros"] }
tracing = "0.1"
url = "2"
uuid = { version = "1", features = ["v4", "v5"] }
