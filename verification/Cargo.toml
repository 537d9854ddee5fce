[package]
name = "abkve"
version = "0.1.0"
edition = "2021"
publish = false

[dependencies]
rustc_apfloat = "=0.2.3"
ieee-apsqrt = "=0.1.1"
serde = { version = "=1.0.229", features = ["derive"] }
serde_json = "=1.0.151"
parking_lot = "=0.12.5"
rayon = "=1.12.0"
structopt = "=0.3.26"
config = "=0.15.27"
dotenv = "=0.15.0"
mimalloc = "=0.1.52"
