[package]
name = "feature_refining"
version = "0.1.0"
edition = "2021"
publish = false

[dependencies]
keyed_priority_queue = "=0.4.2"
levenshtein-diff = "=0.2.4"
regex = "=1.13.1"
float-ord = "=0.3.2"
noisy_float = "=0.2.1"
rayon = "=1.12.0"
statrs = "=0.16.1"
serde = { version = "=1.0.229", features = ["derive"] }
serde_json = "=1.0.154"
rand = "=0.8.8"
tempfile = "=3.27.0"
diff = "0.1"

[dev-dependencies]
itertools = "=0.12.1"
