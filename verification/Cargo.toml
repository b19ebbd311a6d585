[package]
name = "spcs_rust_utils"
version = "0.1.0"
edition = "2021"
publish = false

[dependencies]
toml = "0.8"
time = { version = "0.3", features = ["formatting", "local-offset", "parsing"] }
serde = { version = "1", features = ["derive"] }
serde_json = "1"
tokio = { version = "1", features = ["full"] }
crossbeam = "0.8"
log = "0.4"
env_logger = "0.11"
clap = { version = "4", features = ["derive"] }
lettre = { version = "0.11", default-features = false, features = ["builder", "smtp-transport"] }
tui-logger = "*"
pyo3 = "*"

[dev-dependencies]
regex = "1"
