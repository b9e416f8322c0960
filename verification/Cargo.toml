[package]
name = "cargo_dyndrv"
version = "0.1.0"
edition = "2021"
publish = false

[dependencies]
bytes = "=1.12.1"
cargo_metadata = "=0.23.1"
color-eyre = "=0.6.5"
# For the example in app/, where the libraries of ffmpeg are installed.
ffmpeg-next = "=9.0.0"
# The one published crate that holds harmonia's store paths, derivations and placeholders.
harmonia-store-core = "=0.0.0-alpha.0"
serde = { version = "=1.0.229", features = ["derive"] }
serde_json = "=1.0.154"
