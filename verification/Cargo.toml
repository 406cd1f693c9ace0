[package]
name = "nwg_common"
version = "0.4.0"
edition = "2021"
publish = false

[dependencies]
clap = { version = "4", features = ["derive"] }
dirs = "*"
gtk4 = "*"
gtk4-layer-shell = "*"
libc = "0.2"
log = "0.4"
nix = { version = "*", features = ["signal"] }
notify = "*"
serde = { version = "1", features = ["derive"] }
serde_json = "1"
shell-words = "1"
thiserror = "*"
