[package]
name = "seer_sync"
version = "0.4.0"
edition = "2021"
publish = false

[dependencies]
zcash_note_encryption = "=0.5.1"
orchard = { version = "=0.16.0", default-features = false, features = ["std"] }
sapling-crypto = { version = "=0.9.0", default-features = false, features = ["std"] }
zcash_keys = { version = "=0.17.0", features = ["orchard", "sapling", "transparent-inputs"] }
zcash_protocol = "=0.11.0"
zcash_primitives = { version = "=0.31.0", default-features = false, features = ["std"] }
zcash_transparent = { version = "=0.11.0", features = ["transparent-inputs"] }
zcash_script = "=0.6.0"
zcash_encoding = "=0.5.0"
zip32 = "*"
incrementalmerkletree = "=0.9.0"
shardtree = "=0.8.0"
byteorder = "=1.5.0"
rusqlite = { version = "=0.41.1", features = ["bundled"] }
tonic = { version = "=0.14.9", features = ["tls-ring", "tls-webpki-roots"] }
tonic-prost = "=0.14.9"
prost = "=0.14.4"
tokio = { version = "=1.54.1", features = ["macros", "rt-multi-thread"] }
tokio-stream = "=0.1.19"
futures = "=0.3.34"
http = "=1.5.0"
rayon = "=1.12.0"
crossbeam-channel = "=0.5.17"
thiserror = "=2.0.21"
anyhow = "=1.0.104"

[dev-dependencies]
rand_core = "=0.10.1"
