[package]
name = "fm"
version = "0.1.0"
edition = "2021"
publish = false

[dependencies]
pathdiff = "0.2"
anyhow = "1"
directories = "5"
educe = "0.6"
futures = "0.3"
gstreamer = "0.23"
relm4 = { version = "0.9", features = ["libadwaita", "libpanel"] }
serde = { version = "1", features = ["derive"] }
serde_json = "1"
tracing = "0.1"
