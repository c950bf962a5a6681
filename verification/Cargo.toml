[package]
name = "content_managment"
version = "0.1.0"
edition = "2021"
publish = false

[dependencies]
serde_urlencoded = "0.7"
sha2 = "0.10"
chrono = { version = "0.4", default-features = false, features = ["clock", "std", "serde"] }
urlencoding = "2"
serde = { version = "1", features = ["derive"] }
serde_json = "1"
serde_yaml = "0.9"
reqwest = { version = "0.11", default-features = false, features = ["json"] }
tokio = { version = "1", features = ["rt-multi-thread", "macros", "fs", "io-util"] }
actix-web = { version = "4", default-features = false, features = ["macros"] }
clap = { version = "3.2", features = ["derive"] }
regex = "1"
tera = { version = "1", default-features = false }
xmp_toolkit = "0.7"
image = { version = "0.24", default-features = false, features = ["jpeg"] }
img-parts = "0.3"
rayon = "1"
indicatif = "0.17"
colored = "2"
rmp-serde = "1"
lz4_flex = "0.10"
log = "0.4"
env_logger = "0.10"
lazy_static = "1"
