[package]
name = "megastore_search"
version = "0.1.0"
edition = "2021"
publish = false

[dependencies]
lru = "=0.18.5"
hashbrown = "=0.17.1"
