[package]
name = "trackfetch"
version = "0.1.0"
edition = "2021"
publish = false

[dependencies]
librespot-audio = "=0.8.0"
librespot-core = "=0.8.0"
librespot-metadata = "=0.8.0"
tokio = { version = "=1.53.2", features = ["rt-multi-thread"] }
scoped_threadpool = "=0.1.9"
sanitize-filename = "=0.6.0"
log = "=0.4.34"
env_logger = "=0.11.11"
# Holds the build-script helper of librespot-core to a release whose
# trait impls match its companion crates.
vergen = { version = "=9.0.6", default-features = false }

[dev-dependencies]
regex = "=1.13.1"
