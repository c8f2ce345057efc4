[package]
name = "guicons"
version = "0.1.0"
edition = "2021"
publish = false

[dependencies]
syn = { version = "2", features = ["full"] }
proc-macro2 = "1"
quote = "1"
sha2 = "0.10"
hex = "0.4"
pathdiff = "0.2"
petgraph = "0.6"
toml-span = "*"
toml_edit = "*"
serde_json = "1"
walkdir = "2"
tempfile = "3"
ureq = "2"
clap = { version = "4", features = ["derive"] }
miette = { version = "7", features = ["fancy"] }
tokio = { version = "1", features = ["rt-multi-thread", "macros", "io-std", "sync"] }
tower-lsp = "0.20"
uniffi = "0.28"
winnow = "*"
