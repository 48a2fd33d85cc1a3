[package]
name = "panty"
version = "0.1.0"
edition = "2021"
publish = false

[dependencies]
regex = "1"
rand = "0.8"
serde = { version = "1", features = ["derive"] }
serde_json = "1"
argparse = "0.2"
dirs = "5"
env_logger = "0.11"
log = "0.4"
tempfile = "3"
x11 = { version = "2", features = ["xlib"] }
libc = "0.2"
ctrlc = "3"
walkdir = "2"
inotify = "0.10"
unix_socket = "0.5"
