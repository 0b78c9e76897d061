[package]
name = "private_chain"
version = "0.1.0"
edition = "2021"
publish = false

[dependencies]
alloy-consensus = { version = "=1.8.3", default-features = false, features = ["std"] }
alloy-eips = { version = "=1.8.3", default-features = false, features = ["std", "sha2"] }
alloy-primitives = { version = "=1.7.3", default-features = false, features = ["std"] }
alloy-rlp = { version = "=0.3.17", default-features = false, features = ["std"] }
bytes = "=1.12.1"
clap = { version = "=4.6.7", default-features = false, features = ["std", "derive", "help"] }
commonware-codec = "=2026.3.0"
commonware-cryptography = "=2026.3.0"
commonware-macros = "=2026.3.0"
commonware-parallel = "=2026.3.0"
commonware-utils = "=2026.3.0"
const-hex = "=1.19.3"
dashmap = "=6.2.1"
eyre = "=0.6.14"
hashbrown = "=0.16.1"
jiff = { version = "=0.2.39", default-features = false, features = ["std"] }
rand = "=0.8.8"
revm = { version = "=34.0.0", default-features = false, features = ["std"] }
rustc-hash = "=2.1.3"
serde = { version = "=1.0.229", features = ["derive"] }
serde_json = "=1.0.154"
smallvec = "=1.16.4"
thiserror = "=2.0.21"
tracing = "=0.1.44"
