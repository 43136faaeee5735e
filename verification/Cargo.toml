[package]
name = "dc_project"
version = "0.1.0"
edition = "2021"
publish = false

[dependencies]
hashbrown = "*"
itertools = "*"
message-io = "*"
rand = "*"
serde = { version = "*", features = ["derive"] }
serde_derive = "*"
serde_json = "*"
