[package]
name = "x68k_archive"
version = "0.1.0"
edition = "2021"
publish = false

[dependencies]
anyhow = "1"
chrono = "0.4"
clap = { version = "4", features = ["derive"] }
delharc = "0.6"
dotenvy = "0.15"
encoding_rs = "0.8"
filetime = "0.2"
memmap2 = "0.9"
regex = "1"
reqwest = { version = "0.12", default-features = false, features = ["blocking", "json", "rustls-tls"] }
serde = { version = "1", features = ["derive"] }
serde_json = "1"
sha1 = "0.10"
tantivy = "0.22"
toml = "0.8"
unicode-normalization = "0.1"
