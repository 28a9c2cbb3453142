[package]
name = "live_sync"
version = "0.1.0"
edition = "2021"
publish = false

[dependencies]
anyhow = "1"
async-channel = "2"
futures-buffered = "0.2"
iroh = { version = "*", default-features = false }
iroh-blobs = { version = "*", default-features = false }
iroh-gossip = { version = "*", default-features = false, features = ["net"] }
n0-future = "*"
postcard = { version = "1", default-features = false, features = ["alloc", "use-std", "experimental-derive"] }
serde = { version = "1", features = ["derive"] }
tokio = { version = "1", features = ["sync", "macros", "rt"] }
tracing = "0.1"
