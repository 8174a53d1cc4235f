[package]
name = "cosmic_clip_keep"
version = "0.1.0"
edition = "2021"
publish = false

[dependencies]
sha2 = "=0.10.9"
image = { version = "=0.25.10", default-features = false, features = ["png", "jpeg", "gif", "bmp"] }
rusqlite = { version = "=0.32.1", features = ["bundled"] }
serde = { version = "=1.0.229", features = ["derive"] }
rustix = { version = "=1.1.6", features = ["fs", "time"] }
tracing = "=0.1.44"
tokio = { version = "=1.54.1", features = ["sync", "net", "io-util", "time", "rt", "macros"] }
calloop = "=0.14.5"
calloop-wayland-source = "=0.4.1"
wayland-client = "=0.31.15"
wayland-protocols = { version = "=0.32.13", features = ["client", "staging"] }
wayland-protocols-wlr = { version = "=0.3.12", features = ["client"] }
wayland-protocols-misc = { version = "=0.3.12", features = ["client"] }
jiff = "=0.2.39"
futures = "=0.3.34"
