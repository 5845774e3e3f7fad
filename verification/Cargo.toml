[package]
name = "sotto"
version = "0.1.0"
edition = "2021"
publish = false

[dependencies]
regex = "1"
crossbeam-channel = "0.5"
dirs = "6"
libc = "0.2"
notify-rust = "4"
signal-hook = "0.3"
ureq = "3"
evdev = "0.13"
cpal = "0.15"
gtk4 = "*"
libadwaita = "*"
gtk4-layer-shell = "*"
whisper-rs = "*"
voice_activity_detector = "*"
