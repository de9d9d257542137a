[package]
name = "flatpak_next"
version = "0.1.0"
edition = "2021"
publish = false

[dependencies]
anyhow = "*"
clap = { version = "*", features = ["derive"] }
composefs = "=0.9.3"
composefs-fuse = "=0.9.3"
composefs-oci = "=0.9.3"
dirs = "*"
env_logger = { version = "*", default-features = false }
hex = "=0.4.3"
http-cache-reqwest = "=0.16.0"
libc = "*"
log = "*"
reqwest = { version = "=0.12.28", default-features = false, features = ["json", "rustls-tls"] }
reqwest-middleware = { version = "=0.4.2", features = ["json"] }
rustix = { version = "=1.1.5", features = ["fs", "mount", "process", "thread", "pipe", "termios"] }
serde = { version = "*", features = ["derive"] }
tokio = { version = "*", features = ["macros", "rt"] }
wayland-client = "*"
wayland-protocols = { version = "*", features = ["client", "staging"] }
whoami = { version = "*", default-features = false }
