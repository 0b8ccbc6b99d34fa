[package]
name = "ssh_agent"
version = "0.1.0"
edition = "2021"
publish = false

[dependencies]
async-trait = "0.1"
byteorder = "1"
bytes = "1"
eyre = "0.6"
futures = "0.3"
rand = "0.8"
rsa = { version = "0.9", features = ["sha1", "sha2"] }
sha1 = "0.10"
ssh-encoding = "0.2"
ssh-key = { version = "0.6", features = ["rsa"] }
thiserror = "1"
tokio = { version = "1", features = ["fs", "io-util", "macros", "net", "rt-multi-thread"] }
tokio-util = { version = "0.7", features = ["codec"] }
