[package]
name = "v2fs"
version = "0.1.0"
edition = "2021"
publish = false

[dependencies]
blake2b_simd = "1"
lru = "0.7"
hashbrown = "0.14"
anyhow = "1"
serde = { version = "1", features = ["derive"] }
serde_json = "1"
bincode = "1"
postcard = { version = "1", default-features = false, features = ["alloc"] }
rocksdb = "*"
structopt = "0.3"
howlong = "0.1"
