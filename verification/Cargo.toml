[package]
name = "confect"
version = "0.1.0"
edition = "2021"
publish = false

[dependencies]
age = "=0.12.1"
clap = { version = "=4.6.7", features = ["derive", "env"] }
console = "=0.16.6"
dialoguer = "=0.12.0"
dirs = "=7.0.0"
glob = "=0.3.4"
hostname = "=0.4.2"
nix = { version = "=0.31.3", features = ["user", "fs"] }
serde = { version = "=1.0.229", features = ["derive"] }
thiserror = "=2.0.21"
toml = "=1.1.7"
walkdir = "=2.5.0"

[dev-dependencies]
bech32 = "=0.11.1"
