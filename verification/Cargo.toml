[package]
name = "git_tools"
version = "0.1.0"
edition = "2021"
publish = false

[dependencies]
regex = "=1.13.1"
chrono = "=0.4.45"
rand = "=0.8.8"
byte-unit = "=5.2.6"
urlencoding = "=2.1.3"
serde_json = { version = "=1.0.154", features = ["preserve_order"] }
ureq = { version = "=2.12.1", features = ["json"] }
clap = { version = "=4.6.7", features = ["derive", "env"] }
gix = "=0.90.0"
