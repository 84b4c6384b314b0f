[package]
name = "postgrustql"
version = "0.1.0"
edition = "2021"
publish = false

[dependencies]
sha2 = "0.10"
chrono = { version = "0.4", default-features = false, features = ["alloc", "serde"] }
uuid = { version = "1", features = ["serde"] }
rust_decimal = { version = "1", features = ["serde"] }
hex = "0.4"
serde = { version = "1", features = ["derive"] }
serde_json = "1"
bincode = "1"
clap = { version = "4", features = ["derive"] }
config = { version = "0.14", default-features = false, features = ["toml"] }
tokio = { version = "1", features = ["rt-multi-thread", "macros", "net", "io-util"] }
thiserror = "2"
