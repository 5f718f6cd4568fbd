[package]
name = "ojn_charts"
version = "0.1.0"
edition = "2021"
publish = false

[dependencies]
encoding_rs = "0.8"
serde = { version = "1", features = ["derive"] }
config = { version = "0.14", default-features = false, features = ["json"] }
tiberius = { version = "0.12", default-features = false, features = ["tds73"] }
tokio = { version = "1", features = ["net", "rt-multi-thread", "macros"] }
tokio-util = { version = "0.7", features = ["compat"] }
