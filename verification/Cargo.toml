[package]
name = "lisi"
version = "0.1.0"
edition = "2021"
publish = false

[dependencies]
anyhow = "1"
clap = { version = "4", features = ["derive"] }
docx-rs = "0.4"
log = "0.4"
pulldown-cmark = { version = "0.12", default-features = false }
rhai = "1"
serde = { version = "1", features = ["derive"] }
serde_json = "1"
simple_logger = "5"
tera = { version = "1", default-features = false }
thiserror = "1"
topological-sort = "0.2"
