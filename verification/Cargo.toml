[package]
name = "arrs"
version = "0.1.0"
edition = "2021"
publish = false

[dependencies]
arrow = { version = "57", default-features = false, features = ["ipc"] }
arrow-array = "57"
arrow-schema = "57"
async-trait = "0.1"
base64 = "0.22"
chrono = { version = "0.4", default-features = false, features = ["std", "clock"] }
clap = { version = "4", features = ["derive"] }
clap_complete = "4"
comfy-table = { version = "7", default-features = false }
csv = "1"
futures = "0.3"
glob = "0.3"
indicatif = "0.17"
rand = "0.9"
rand_chacha = "0.9"
serde_json = { version = "1", features = ["arbitrary_precision", "preserve_order"] }
thiserror = "2"
tokio = { version = "1", features = ["fs", "io-std", "io-util", "macros", "rt-multi-thread"] }
