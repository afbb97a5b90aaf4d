[package]
name = "stepshot"
version = "0.1.0"
edition = "2021"
publish = false

[dependencies]
anyhow = "1"
chrono = "0.4"
ctrlc = "3"
docx-rs = "0.4"
evdev = "0.13"
image = { version = "0.25", default-features = false, features = ["png"] }
ksni = { version = "0.3", features = ["blocking"] }
os_pipe = "1"
printpdf = "0.8"
zbus = "5"
zvariant = "5"
