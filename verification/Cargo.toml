[package]
name = "clis"
version = "0.1.0"
edition = "2021"
publish = false

[dependencies]
chrono = "0.4"
clap = { version = "4", features = ["derive", "env"] }
crossterm = "0.28"
dirs = "*"
fuzzy-matcher = "0.3"
glob = "0.3"
hex = "0.4"
rand = "*"
ratatui = "*"
rayon = "1"
regex = "1"
rusqlite = { version = "*", features = ["bundled"] }
serde = { version = "1", features = ["derive"] }
serde_json = "1"
serde_yaml = "0.9"
sha2 = "0.10"
signal-hook = "0.3"
syntect = "5"
tokio = { version = "1", features = ["rt-multi-thread", "macros"] }
rmcp = { version = "*", features = ["server", "transport-io", "macros"] }
schemars = "*"
toml = "*"

[dev-dependencies]
tempfile = "3"
