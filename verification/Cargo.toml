[package]
name = "bootstrapper"
version = "0.1.0"
edition = "2021"
publish = false

[dependencies]
sha256 = "*"
sled = "*"
shlex = "*"
base64 = "*"
serde = { version = "*", features = ["derive"] }
serde_yaml = "*"
tar = "*"
zip = { version = "*", default-features = false, features = ["deflate"] }
bzip2 = "*"
nix = { version = "*", features = ["mount", "fs"] }
tempfile = "*"
reqwest = { version = "*", default-features = false, features = ["blocking"] }
walkdir = "*"
glob = "*"
