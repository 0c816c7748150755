[package]
name = "mhtml_posts"
version = "0.1.0"
edition = "2021"
publish = false

[dependencies]
base64 = "=0.23.1"
chrono = { version = "=0.4.45", default-features = false, features = ["std", "serde"] }
clap = { version = "=4.6.7", features = ["derive"] }
flume = "=0.12.0"
htmlize = { version = "=1.1.0", features = ["unescape"] }
image = { version = "=0.25.10", default-features = false, features = ["jpeg", "png"] }
lol_html = "=3.0.2"
quoted_printable = "=0.5.2"
scraper = "=0.29.0"
serde = { version = "=1.0.229", features = ["derive"] }
serde_derive = "=1.0.229"
serde_json = "=1.0.154"
threadpool = "=1.8.1"
unicode-segmentation = "=1.13.3"

[dev-dependencies]
regex = "=1.13.1"
