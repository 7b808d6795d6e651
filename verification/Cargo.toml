[package]
name = "meme_machine"
version = "0.1.0"
edition = "2021"
publish = false

[dependencies]
battery = "0.7"
hidapi = { version = "2", default-features = false, features = ["linux-native-basic-udev"] }
libc = "0.2"
rand = "0.9"
rusb = "0.9"
serde = { version = "1", features = ["derive"] }
serde_json = "1"
sysinfo = { version = "0.33", default-features = false, features = ["network"] }
