[package]
name = "satisfactory-planner"
version = "0.1.0"
edition = "2021"
publish = false

[dependencies]
petgraph = "0.6"
good_lp = { version = "~1.7", default-features = false, features = ["minilp"] }
serde = { version = "1", features = ["derive"] }
serde_json = "1"
thiserror = "1"
anyhow = "1"
log = "0.4"
env_logger = "0.10"
clap = { version = "4", features = ["derive"] }
actix-web = { version = "4", default-features = false, features = ["macros"] }
actix-cors = "0.7"
actix-files = "0.6"
