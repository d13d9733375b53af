[package]
name = "gen_core"
version = "0.1.0"
edition = "2021"
publish = false

[dependencies]
itertools = "*"
fxhash = "*"
indexmap = "*"
sliding_window_alt = "*"
nanorand = "*"
libdof = "*"
serde = { version = "*", features = ["derive"] }
serde_json = "*"
serde_with = "*"
toml = "*"
thiserror = "*"
memmap2 = "*"
rayon = "*"
file-chunker = "*"
num_cpus = "*"
