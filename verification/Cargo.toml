[package]
name = "order_stats"
version = "0.1.0"
edition = "2021"
publish = false

[dependencies]
nalgebra = "=0.19.0"
num-traits = "=0.2.19"
rand = "=0.7.3"
rand_distr = "=0.2.2"
