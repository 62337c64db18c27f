[package]
name = "elasticnow"
version = "0.1.0"
edition = "2021"
publish = false

[dependencies]
ansi_term = "*"
chrono = "*"
clap = { version = "*", features = ["derive", "env"] }
clap_complete = "*"
dialoguer = "*"
dirs = "*"
open = "*"
reqwest = { version = "*", default-features = false, features = ["json"] }
serde = { version = "*", features = ["derive"] }
serde_json = "*"
tiny_http = "*"
tokio = { version = "*", features = ["macros", "rt-multi-thread"] }
toml = "*"
tracing = "*"
tracing-subscriber = { version = "*", features = ["env-filter"] }
urlencoding = "*"
