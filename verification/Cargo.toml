[package]
name = "phototex"
version = "0.1.0"
edition = "2021"
publish = false

[dependencies]
clap = "*"
glob = "*"
image = "*"
kamadak-exif = "*"
log = "*"
lopdf = "*"
num_cpus = "*"
rayon = "*"
serde = { version = "*", features = ["derive"] }
serde_json = "*"
stderrlog = "*"
