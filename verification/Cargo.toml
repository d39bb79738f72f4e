[package]
name = "gh_info_rs"
version = "0.1.0"
edition = "2021"
publish = false

[dependencies]
sha2 = "*"
hex = "*"
serde = { version = "*", features = ["derive"] }
serde_json = "*"
tokio = { version = "*", features = ["macros", "rt-multi-thread", "sync", "fs", "io-util", "time"] }
tokio-util = { version = "*", features = ["io"] }
futures = "*"
reqwest = { version = "*", default-features = false, features = ["json", "stream"] }
actix-web = { version = "*", default-features = false, features = ["macros"] }
actix-cors = "*"
mime = "*"
log = "*"
env_logger = "*"
dotenv = "*"
thiserror = "*"
