[package]
name = "shiroa"
version = "0.3.1"
edition = "2021"
publish = false

[dependencies]
base64 = "0.22"
blake3 = "1"
clap = { version = "4", features = ["derive"] }
elasticlunr-rs = "3"
env_logger = "0.11"
log = "0.4"
notify = "6"
pathdiff = "0.2"
regex = "1"
serde = { version = "1", features = ["derive"] }
serde_json = "1"
termcolor = "1"
tokio = { version = "1", features = ["rt-multi-thread", "macros", "sync", "time", "io-util", "fs"] }
tokio-util = "0.7"
async-stream = "0.3"
url = "2"
warp = "0.3"
