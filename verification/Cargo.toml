[package]
name = "band"
version = "0.1.0"
edition = "2021"
publish = false

[dependencies]
hashbrown = "*"
pathfinding = "*"
rayon = "*"
futures = "*"
tokio = { version = "*", features = ["rt-multi-thread", "sync"] }
