[package]
name = "recipe_catalog"
version = "0.1.0"
edition = "2021"
publish = false

[dependencies]
base64 = "=0.23.1"
fuzzy-matcher = "=0.3.7"
image = "=0.25.10"
rand = "=0.10.3"
serde = { version = "=1.0.229", features = ["derive"] }
tokio = { version = "=1.53.2", features = ["full"] }
warp = { version = "=0.4.3", features = ["server"] }
clap = { version = "=4.6.7", features = ["derive"] }
log = "=0.4.34"
fern = "=0.7.1"
humantime = "=2.4.0"
