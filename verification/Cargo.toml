[package]
name = "maze_store"
version = "0.1.0"
edition = "2021"
publish = false

[dependencies]
renet = "=0.0.16"
local-ip-address = "*"
