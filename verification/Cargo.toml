[package]
name = "opencli"
version = "0.1.0"
edition = "2021"
publish = false

[dependencies]
argon2 = "0.5"
chrono = "0.4"
clap = { version = "4", features = ["derive"] }
dirs = "*"
env_logger = "*"
flate2 = "1"
indicatif = "0.17"
log = "0.4"
octocrab = "*"
once_cell = "1"
rand_core = { version = "0.6", features = ["getrandom"] }
regex = "1"
reqwest = "*"
serde = { version = "1", features = ["derive"] }
serde_json = "1"
sha2 = "0.10"
smol_str = { version = "*", features = ["serde"] }
tar = "0.4"
thiserror = "1"
tokio = { version = "1", features = ["fs", "io-util", "macros", "process", "rt"] }
toml = "0.8"
which = "*"
zip = { version = "*", default-features = false, features = ["deflate"] }
