[package]
name = "ramiz"
version = "1.1.0"
edition = "2021"
publish = false

[dependencies]
clap = { version = "4", features = ["derive"] }
flate2 = "1"
libc = "0.2"
minisign-verify = "0.2"
semver = "1"
serde = { version = "1", features = ["derive"] }
serde_json = { version = "1", features = ["raw_value"] }
sha2 = "0.10"
signal-hook = "0.3"
tar = "0.4"
ureq = "3"

[dev-dependencies]
minisign = "0.7"
