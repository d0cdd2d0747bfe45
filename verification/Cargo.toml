[package]
name = "rs-pinocchio"
version = "0.1.0"
edition = "2021"
publish = false

[dependencies]
nalgebra = "*"
clarabel = "*"
thiserror = "*"
