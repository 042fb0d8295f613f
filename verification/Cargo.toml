[package]
name = "fast_rl_rewards"
version = "0.1.0"
edition = "2021"
publish = false

[dependencies]
anyhow = "*"
once_cell = "*"
rayon = "*"
tempfile = "*"
wait-timeout = "*"
