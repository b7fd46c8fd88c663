[package]
name = "reflex"
version = "0.1.0"
edition = "2021"
publish = false

[dependencies]
anyhow = "=1.0.104"
futures = "*"
glob = "=0.3.4"
image = { version = "=0.25.10", default-features = false, features = ["jpeg"] }
rayon = "=1.12.0"
rexif = "=0.7.6"
serde = { version = "=1.0.229", features = ["derive"] }
sqlx = { version = "*", default-features = false, features = ["sqlite", "runtime-tokio"] }
thiserror = "=2.0.21"
xmp_toolkit = "=1.12.1"
