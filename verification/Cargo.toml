[package]
name = "multiview"
version = "0.1.0"
edition = "2021"
publish = false

[dependencies]
chrono = "=0.4.45"
nokhwa = "=0.10.11"
num_cpus = "=1.17.0"
openh264 = "=0.9.9"
rayon = "=1.12.0"
