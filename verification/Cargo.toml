[package]
name = "be_core"
version = "0.1.0"
edition = "2021"
publish = false

[dependencies]
unicode-segmentation = "1"
anstyle-parse = "*"
btree-slab = "*"
serde = { version = "1", features = ["derive"] }
serde_json = { version = "1", features = ["raw_value"] }
polling = "3"
rustix = { version = "*", features = ["termios", "stdio", "fs"] }
rustix-openpty = "*"
libc = "0.2"
crossbeam-channel = "0.5"
parking_lot = "0.12"
log = "0.4"
