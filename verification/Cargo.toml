[package]
name = "unicleaner"
version = "0.1.0"
edition = "2021"
publish = false

[dependencies]
encoding_rs = "*"
unicode-normalization = "*"
globset = "*"
strsim = "*"
unicode-blocks = "*"
owo-colors = "*"
clap = { version = "4", features = ["derive"] }
serde = { version = "1", features = ["derive"] }
serde_json = "1"
rayon = "*"
ignore = "*"
num_cpus = "*"
thiserror = "*"

[dev-dependencies]
tempfile = "*"
