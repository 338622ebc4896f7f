[package]
name = "rooch-sequencer"
version = "0.1.0"
edition = "2021"
publish = false

[dependencies]
anyhow = "=1.0.104"
async-trait = "0.1"
bcs = "=0.1.6"
bitcoin = "=0.31.3"
clap = { version = "=4.6.7", features = ["derive"] }
coerce = "0.8"
diesel = { version = "2.1", features = ["sqlite", "r2d2"] }
fastcrypto = "=0.1.11"
function_name = "0.3"
log = "=0.4.34"
prometheus = "0.13"
serde = { version = "=1.0.229", features = ["derive"] }
tracing = "0.1"
xorf = "=0.11.0"
xxhash-rust = { version = "=0.8.19", features = ["xxh3"] }

[dev-dependencies]
rand = "=0.8.8"
