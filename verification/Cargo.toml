[package]
name = "poppins"
version = "0.1.0"
edition = "2021"
publish = false

[dependencies]
rand = "*"
regex = "*"
num_cpus = "*"
once_cell = "*"
serde = { version = "*", features = ["derive"] }
serde_json = "*"
clap = { version = "*", features = ["derive"] }
chrono = "*"
rayon = "*"
