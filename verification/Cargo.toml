[package]
name = "pcb_core"
version = "0.1.0"
edition = "2021"
publish = false

[dependencies]
sexp = "=1.1.4"
fixedbitset = "=0.5.7"
smallvec = "=1.16.4"
regex = "=1.13.1"
globset = "=0.4.21"
itertools = "=0.15.0"
toml = "=1.1.8"
serde = { version = "=1.0.229", features = ["derive"] }
serde_json = "=1.0.154"
anyhow = "=1.0.104"
thiserror = "=2.0.21"
log = "=0.4.35"
walkdir = "=2.5.0"
chrono = "=0.4.45"
once_cell = "=1.21.4"
dirs = "=7.0.0"
tempfile = "=3.27.0"
flate2 = "=1.1.10"
tar = "=0.4.46"
zip = { version = "2", default-features = false, features = ["deflate"] }
