[package]
name = "tile_prune"
version = "0.1.0"
edition = "2021"
publish = false

[dependencies]
anyhow = "*"
geo-types = "*"
mvt-reader = "*"
serde_json = "*"
