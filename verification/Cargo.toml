[package]
name = "shiny_portal"
version = "0.1.0"
edition = "2021"
publish = false

[dependencies]
anyhow = "=1.0.104"
clap = { version = "=4.6.7", features = ["derive"] }
drm = "=0.14.1"
enumflags2 = { version = "=0.7.12", features = ["serde"] }
futures-util = "=0.3.34"
gbm = { version = "=0.18.0", default-features = false, features = ["drm-support"] }
pipewire = { version = "=0.10.1", features = ["v0_3_41"] }
png = "=0.18.1"
rustix = { version = "=1.1.6", features = ["fs"] }
serde = { version = "=1.0.229", features = ["derive"] }
serde_json = "=1.0.154"
serde_repr = "=0.1.21"
thiserror = "=2.0.21"
tokio = { version = "=1.54.1", features = ["full"] }
toml = "=1.1.8"
tracing = "=0.1.44"
tracing-subscriber = { version = "=0.3.23", features = ["env-filter"] }
wayland-client = "=0.31.15"
wayland-protocols = { version = "=0.32.13", features = ["client", "staging", "unstable"] }
zbus = { version = "=5.19.0", default-features = false, features = ["tokio"] }
zvariant = { version = "=5.15.1", features = ["enumflags2"] }
