[package]
name = "beamd"
version = "0.1.0"
edition = "2021"
publish = false

[dependencies]
serde_json = { version = "=1.0.151", features = ["preserve_order"] }
bson = { version = "=3.1.0", features = ["serde"] }
ciborium = "=0.2.2"
rmp-serde = "=1.3.1"
serde-pickle = "=1.2.0"
lz4_flex = "=0.14.0"
snap = "=1.1.2"
flate2 = "=1.1.10"
zstd = "=0.14.0"
tokio = { version = "=1.53.2", features = ["rt", "rt-multi-thread", "macros"] }
flume = "=0.12.0"
prost-reflect = { version = "=0.16.5", features = ["serde"] }
serde = { version = "=1.0.229", features = ["derive"] }
prost = "=0.14.4"
prost-types = "=0.14.4"
