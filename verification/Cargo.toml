[package]
name = "p2p_videochat"
version = "0.1.0"
edition = "2021"
publish = false

[dependencies]
anyhow = "*"
clap = { version = "*", features = ["derive"] }
colored = "*"
data-encoding = "*"
dirs = "*"
futures-lite = "*"
iroh = "*"
iroh-gossip = "*"
rand = "*"
terminal_size = "*"
tokio = { version = "*", features = ["rt-multi-thread", "macros", "time", "sync"] }
