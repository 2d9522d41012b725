[package]
name = "lab16_core"
version = "0.1.0"
edition = "2021"
publish = false

[dependencies]
fb2 = "=0.4.4"
quick-xml = { version = "=0.39.4", features = ["serialize"] }
whatlang = "=0.18.0"
unicode-segmentation = "=1.13.3"
hashbrown = "=0.17.1"
serde = { version = "=1.0.229", features = ["derive"] }
serde_json = "=1.0.154"
clap = { version = "=4.6.7", features = ["derive"] }
anyhow = "=1.0.104"
tracing = "=0.1.44"
tracing-subscriber = { version = "=0.3.23", features = ["env-filter"] }
hf-hub = "=0.4.3"
llama-cpp-2 = "=0.1.160"
llama-cpp-sys-2 = "=0.1.160"
