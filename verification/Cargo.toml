[package]
name = "memstore"
version = "0.1.0"
edition = "2021"

[dependencies]
bao-tree = "=0.16.1"
blake3 = "=1.8.7"
bytes = "=1.12.1"
futures = "=0.3.34"
iroh-io = "=0.6.2"
tokio = { version = "=1.53.2", features = ["rt", "sync"] }
