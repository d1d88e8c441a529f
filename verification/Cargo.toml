[package]
name = "pordle"
version = "0.2.0"
edition = "2021"
publish = false

[dependencies]
rusqlite = { version = "0.31", features = ["bundled"] }
serde_json = "1"
dirs = "5"
clap = { version = "4", features = ["derive"] }
glib = "0.19"
gtk4 = "0.8"
libadwaita = { version = "0.6", features = ["v1_5"] }
