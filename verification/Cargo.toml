[package]
name = "digimatic"
version = "0.1.0"
edition = "2021"
publish = false

[dependencies]
hex = "=0.4.3"
chrono = "=0.4.45"
csv = "=1.4.0"
serde = { version = "=1.0.229", features = ["derive"] }
serde_json = "=1.0.154"
thiserror = "=2.0.21"
serialport = { version = "=4.10.1", default-features = false }
rand = "=0.9.5"
rand_distr = "=0.5.1"
eframe = { version = "=0.33.3", default-features = false, features = ["glow", "x11", "default_fonts"] }
egui = "=0.33.3"
egui_plot = "=0.34.1"
tokio = { version = "=1.54.1", features = ["rt-multi-thread", "time", "net"] }
axum = { version = "=0.8.9", features = ["ws"] }
tower-http = { version = "=0.6.11", features = ["fs"] }
