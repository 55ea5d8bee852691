[package]
name = "devtoolbox"
version = "0.1.0"
edition = "2021"
publish = false

[dependencies]
base64 = "=0.22.1"
ed25519-dalek = "=2.2.0"
sha2 = "=0.10.9"
semver = "=1.0.28"
serde = { version = "=1.0.229", features = ["derive"] }
serde_json = "=1.0.154"
cargo-packager-updater = "=0.2.3"
cargo-packager-resource-resolver = { version = "=0.1.2", features = ["auto-detect-format"] }
ureq = "=3.5.1"
walkdir = "=2.5.0"
log = "=0.4.35"
