[package]
name = "pranklin"
version = "0.1.0"
edition = "2021"
publish = false

[dependencies]
alloy-primitives = { version = "=1.7.3", features = ["k256"] }
borsh = "=1.8.1"
fastrand = "=2.5.0"
clap = { version = "=4.6.7", features = ["derive"] }
thiserror = "=2.0.21"
num_cpus = "=1.17.0"

[dev-dependencies]
k256 = { version = "=0.13.4", features = ["ecdsa"] }
