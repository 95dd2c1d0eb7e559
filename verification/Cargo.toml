[package]
name = "crabdis"
version = "0.1.0"
edition = "2021"
publish = false

[dependencies]
tokio = { version = "1", features = ["rt-multi-thread", "net", "io-util", "sync", "time"] }
glob = "0.3"
clap = { version = "4", features = ["derive"] }
log = "0.4"
fern = "0.6"
