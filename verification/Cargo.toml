[package]
name = "fuse_query"
version = "0.1.0"
edition = "2021"
publish = false

[dependencies]
arrow = { version = "*", default-features = false }
serde = { version = "1", features = ["derive"] }
warp = "0.3"
