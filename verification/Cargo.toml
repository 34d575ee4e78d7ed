[package]
name = "m3c4"
version = "0.1.0"
edition = "2021"
publish = false

[dependencies]
mcts = "0.3.0"
rand = "0.8"
rayon = "1"
tensorflow = "0.21"
