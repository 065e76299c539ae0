[package]
name = "archiinventory"
version = "0.1.0"
edition = "2021"
publish = false

[dependencies]
anyhow = "=1.0.104"
archipelago_rs = { version = "=3.0.1", default-features = false }
ciborium = "=0.2.2"
eframe = { version = "=0.37.0", default-features = false, features = ["default_fonts", "glow", "persistence", "x11"] }
egui_extras = { version = "=0.37.0", default-features = false }
hashbrown = { version = "=0.17.1", features = ["serde"] }
rand = "=0.10.3"
rfd = { version = "=0.17.2", default-features = false, features = ["xdg-portal"] }
sanitise-file-name = "=1.0.0"
serde = { version = "=1.0.229", features = ["derive"] }
serde_json = "=1.0.154"
simd-normalizer = "=0.1.1"
smol = "=2.0.2"
ureq = { version = "=3.5.1", default-features = false, features = ["json"] }
url = "=2.5.8"
z85 = "=3.0.7"
