[package]
name = "merry_tui"
version = "0.1.0"
edition = "2021"
publish = false

[dependencies]
arboard = { version = "3", default-features = false, features = ["image-data"] }
crossterm = "0.28"
image = { version = "=0.25.10", default-features = false, features = ["gif", "jpeg", "png", "webp"] }
pulldown-cmark = { version = "=0.13.6", default-features = false }
ratatui = { version = "=0.29.0", features = ["unstable-rendered-line-info"] }
serde = { version = "1", features = ["derive"] }
serde_json = "=1.0.154"
sha2 = "=0.10.9"
syntect = { version = "=5.3.0", default-features = false, features = ["default-fancy"] }
thiserror = "2"
tokio = { version = "1", features = ["fs", "macros", "rt-multi-thread", "sync", "time"] }
tokio-util = "0.7"
toml = "0.8"
tracing = "0.1"
two-face = { version = "0.5", default-features = false, features = ["syntect-default-fancy"] }
unicode-width = "=0.2.0"
