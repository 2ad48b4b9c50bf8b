[package]
name = "fretwire"
version = "0.5.0"
edition = "2021"
publish = false

[dependencies]
rmpv = "1"
serde = { version = "1", features = ["derive"] }
serde_json = "1"
thiserror = "2"
tracing = "0.1"
tracing-subscriber = { version = "0.3", features = ["env-filter"] }
clap = { version = "4", features = ["derive"] }
ureq = "3"
