[package]
name = "abm"
version = "0.1.0"
edition = "2021"
publish = false

[dependencies]
hashbrown = "=0.17.1"
mpi = "=0.8.2"
