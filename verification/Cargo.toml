[package]
name = "fantoir_datasource"
version = "0.1.0"
edition = "2021"
publish = false

[dependencies]
async-scoped = { version = "*", default-features = false, features = ["use-tokio"] }
chrono = { version = "0.4", default-features = false, features = ["std"] }
clap = { version = "4", features = ["derive"] }
lazy_static = "1"
oxrdf = "*"
regex = "1"
reqwest = { version = "0.12", default-features = false, features = ["gzip", "deflate"] }
serde = { version = "1", features = ["derive"] }
serde_derive = "1"
serde_json = "1"
sparesults = "*"
sqlx = { version = "0.8", default-features = false, features = ["postgres", "runtime-tokio"] }
tokio = { version = "1", features = ["macros", "rt-multi-thread", "fs", "io-util", "process"] }
