[package]
name = "gnome_shell_cast"
version = "0.1.0"
edition = "2021"
publish = false

[dependencies]
aes = "=0.8.4"
anyhow = "1"
ctr = "=0.9.2"
env_logger = "0.11"
gstreamer = "0.23"
gstreamer-app = "0.23"
log = "0.4"
parking_lot = "0.12"
rand = "=0.9.5"
rust_cast = "=0.21.0"
rustls = { version = "0.23", default-features = false, features = ["std", "tls12", "ring"] }
serde_json = "=1.0.154"
tokio = { version = "1", features = ["macros", "rt-multi-thread", "sync", "time", "process"] }
zbus = { version = "5", default-features = false, features = ["tokio"] }
