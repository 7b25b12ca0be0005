[package]
name = "v_utils"
version = "0.1.0"
edition = "2021"
publish = false

[dependencies]
chrono = { version = "0.4", default-features = false, features = ["std"] }
jiff = "0.2"
serde = { version = "1", features = ["derive"] }
serde_json = "1"
dirs = "*"
eyre = "*"
rand = "0.9"
rand_distr = "0.5"
ustr = "1"
rnix = "*"
libc = "0.2"
tokio = { version = "1", features = ["rt", "rt-multi-thread", "process"] }
reqwest = { version = "0.12", default-features = false, features = ["blocking", "json", "rustls-tls"] }
