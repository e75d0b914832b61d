[package]
name = "outside_auras"
version = "0.1.0"
edition = "2021"
publish = false

[dependencies]
chrono = "0.4"
crossbeam = "0.8"
eframe = { version = "0.22", default-features = false, features = ["default_fonts", "glow"] }
env_logger = "0.10"
image = { version = "0.24", default-features = false, features = ["jpeg"] }
ipc-channel = "0.16"
lazy_static = "1"
notify = "6"
parking_lot = "0.12"
procspawn = "0.10"
rlua = "0.19"
