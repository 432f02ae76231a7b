[package]
name = "titan_os"
version = "0.1.0"
edition = "2021"
publish = false

[dependencies]
bootloader = { version = "=0.9.35", features = ["map_physical_memory"] }
conquer-once = "=0.3.2"
lazy_static = "=1.5.1"
pic8259 = { version = "=0.11.0", default-features = false, features = ["stable"] }
spin = "=0.9.9"
x86_64 = { version = "=0.15.5", default-features = false, features = ["instructions"] }
