[package]
name = "tracemalloc"
version = "0.1.0"
edition = "2021"
publish = false

[dependencies]
backtrace = "=0.3.77"
crossbeam-queue = "=0.3.14"
dashmap = "=6.2.1"
fastrand = "=2.5.0"
memmap2 = "=0.9.12"
nohash-hasher = "=0.2.0"
pprof = { version = "=0.15.0", default-features = false, features = ["prost-codec"] }
prost = "=0.12.6"
pyo3 = { version = "=0.22.6", features = ["extension-module"] }
serde = { version = "=1.0.229", features = ["derive"] }
serde_json = "=1.0.154"
