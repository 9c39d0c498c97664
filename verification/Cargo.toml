[package]
name = "car_server"
version = "0.1.0"
edition = "2021"
publish = false

[dependencies]
basic-pathfinding = "*"
mio = { version = "*", features = ["net", "os-poll"] }
