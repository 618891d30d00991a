[package]
name = "vaultdb"
version = "0.1.0"
edition = "2021"
publish = false

[dependencies]
regex = "1"
url = "2"
csv = "1"
serde_yaml = "0.9"
serde_json = "1"
serde = { version = "1", features = ["derive"] }
anyhow = "1"
clap = { version = "4", features = ["derive"] }
colored = "*"
fs2 = "0.4"
tempfile = "3"
walkdir = "2"
thiserror = "*"
rusqlite = { version = "*", features = ["bundled"] }
rust_xlsxwriter = "*"
rmcp = { version = "*", features = ["server", "transport-io", "macros"] }
schemars = "*"
tokio = { version = "1", features = ["macros", "rt-multi-thread"] }
tracing = "0.1"
tracing-subscriber = { version = "0.3", features = ["env-filter"] }
