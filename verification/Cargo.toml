[package]
name = "szfs"
version = "0.1.0"
edition = "2021"
publish = false

[dependencies]
fftconvolve = "*"
itertools = "*"
lazy_static = "*"
lru = { version = "=0.18.5", default-features = false }
ndarray = "*"
num_cpus = "*"
rayon = "*"
serde = { version = "*", features = ["derive"] }
serde_json = "*"
