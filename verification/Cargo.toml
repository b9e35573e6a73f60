[package]
name = "py2o2"
version = "0.1.0"
edition = "2021"
publish = false

[dependencies]
clap = { version = "4", features = ["derive"] }
prettyplease = "0.2"
syn = { version = "2", features = ["full"] }
proc-macro2 = "1"

[dev-dependencies]
serde_json = "1"
