[package]
name = "grid_room"
version = "0.1.0"
edition = "2021"

[dependencies]
grid = "*"
thiserror = "*"
