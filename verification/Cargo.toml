[package]
name = "metropolis_sampling"
version = "0.1.0"
edition = "2021"
publish = false

[dev-dependencies]
rand = "=0.8.5"
rand_pcg = "=0.3.1"
