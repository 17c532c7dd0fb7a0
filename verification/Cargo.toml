[package]
name = "catplay"
version = "0.1.0"
edition = "2021"
publish = false

[dependencies]
async-trait = "0.1"
bitflags = "2"
bytes = "1"
exp-golomb = "*"
libc = "0.2"
log = "0.4"
plist = "1"
serde = { version = "1", features = ["derive"] }
tokio = { version = "1", features = ["macros", "rt", "sync", "test-util", "time"] }
x264-sys = "*"
