[package]
name = "n2t"
version = "0.1.0"
edition = "2021"
publish = false

[dependencies]
bitvec = "=1.1.1"
clap = { version = "=3.2.25", features = ["derive"] }
thiserror = "=1.0.69"

[dev-dependencies]
nom = "7"
nom-supreme = "0.8"
flexstr = "0.9"
itertools = "0.10"
