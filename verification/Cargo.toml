[package]
name = "lu_cache"
version = "0.1.0"
edition = "2021"
publish = false

[dependencies]
argh = "=0.1.19"
assembly-pack = { version = "=0.5.2", features = ["manifest", "md5sum", "pki", "pki-gen-txt", "sd0"] }
color-eyre = "=0.6.5"
globset = "=0.4.21"
indexmap = { version = "=2.14.2", features = ["serde"] }
log = "=0.4.35"
rayon = "=1.12.0"
serde = { version = "=1.0.229", features = ["derive"] }
toml = "1.1"
