[package]
name = "slotmap_graph"
version = "0.1.0"
edition = "2021"
publish = false

[dependencies]
graph-api-lib = "*"
pi_slotmap = "*"
smallbox = "*"
