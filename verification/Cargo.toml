[package]
name = "block_stm"
version = "0.1.0"
edition = "2021"
publish = false

[dependencies]
anyhow = "1"
dashmap = "5"
hashbrown = "0.14"
once_cell = "1"
rayon = "1"
