[package]
name = "cosmic_ext_applet_wifi_plus"
version = "0.1.0"
edition = "2021"
publish = false

[dependencies]
serde_json = "1"
tokio = { version = "1", default-features = false, features = ["rt"] }
tracing = "0.1"
tracing-subscriber = "0.3"
