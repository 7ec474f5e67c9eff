[package]
name = "faceitui"
version = "0.1.0"
edition = "2021"
publish = false

[dependencies]
anyhow = "1"
arboard = "3"
crossterm = "0.28"
futures-util = "0.3"
opaline = "*"
ratatui = "0.29"
reqwest = { version = "0.12", default-features = false, features = ["json", "stream", "rustls-tls"] }
serde = { version = "1", features = ["derive"] }
serde_json = "1"
tokio = { version = "1", features = ["full"] }
tui-banner = "*"
tui-scrollview = "0.5"
urlencoding = "2"
