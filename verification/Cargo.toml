[package]
name = "symbiosis"
version = "0.1.0"
edition = "2021"
publish = false

[dependencies]
argh = "0.1"
async-trait = "0.1"
ciborium = "0.2"
crc32fast = "1"
futures = "0.3"
libc = "0.2"
log = "0.4"
procfs = "*"
serde = { version = "1", features = ["derive"] }
systemd-journal-logger = "*"
thiserror = "*"
tokio = { version = "1", features = ["macros", "rt-multi-thread", "time", "net", "io-util"] }
yaml_serde = "*"
zbus = { version = "5", default-features = false, features = ["tokio"] }
zvariant = "5"
