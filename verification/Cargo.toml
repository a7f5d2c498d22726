[package]
name = "feedsub"
version = "0.1.0"
edition = "2021"
publish = false

[dependencies]
sled = "*"
rss = { version = "*", features = ["validation"] }
atom_syndication = "*"
url = "*"
chrono = "*"
reqwest = { version = "*", default-features = false }
tokio = { version = "*", features = ["rt-multi-thread", "macros", "time"] }
