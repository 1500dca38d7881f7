[package]
name = "jsonld_diff"
version = "0.1.0"
edition = "2021"
publish = false

[dependencies]
ahash = "=0.8.12"
bitvec = "=1.1.1"
hashbrown = "=0.17.1"
lazy_static = "=1.5.1"
lru = "=0.19.0"
memchr = "=2.8.3"
once_cell = "=1.21.4"
rayon = "=1.12.0"
rustler = "=0.39.0"
semver = "=1.0.28"
serde_json = "=1.0.154"
simdutf8 = "=0.1.5"
similar = "=2.7.0"
smallvec = "=1.16.4"
uuid = { version = "=1.29.0", features = ["v4"] }
