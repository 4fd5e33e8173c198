[package]
name = "errornowatcher"
version = "0.2.0"
edition = "2021"
publish = false

[dependencies]
azalea = "=0.12.0"
ctrlc = "3"
log = "=0.4.34"
parking_lot = "=0.12.5"
serde_json = "=1.0.154"
tokio = { version = "1", features = ["macros", "rt-multi-thread"] }
zip = { version = "=9.0.5", default-features = false, features = ["deflate"] }
