[package]
name = "deploy-utils"
version = "0.1.0"
edition = "2021"
publish = false

[dependencies]
anstream = "*"
anstyle = "*"
clap = { version = "4", features = ["derive"] }
color-eyre = "*"
eyre = "*"
rayon = "*"
serde = { version = "1", features = ["derive"] }
serde_json = "1"
tracing = "*"
tracing-error = "*"
tracing-subscriber = { version = "*", features = ["env-filter"] }
unicode-width = "*"
whoami = "*"
