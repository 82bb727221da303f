[package]
name = "serve_directory"
version = "0.1.0"
edition = "2021"
publish = false

[dependencies]
build_html = "2"
markdown = "*"
warp = { version = "0.3", default-features = false }
tokio = { version = "1", features = ["macros", "rt-multi-thread", "signal"] }
structopt = "0.3"
log = "0.4"
env_logger = "*"
lazy_static = "1"
local_ipaddress = "0.1"
