[package]
name = "autoeval_cna"
version = "0.1.0"
edition = "2021"
publish = false

[dependencies]
sha2 = "=0.10.9"
uuid = { version = "=1.29.0", features = ["v4"] }
chrono = { version = "=0.4.45", default-features = false, features = ["clock", "std"] }
calamine = "=0.38.0"
quick-xml = "=0.42.0"
zip = { version = "=9.2.2", default-features = false, features = ["deflate"] }
rust_xlsxwriter = { version = "=0.102.0", default-features = false }
docx-rs = "=0.4.22"
libsql = { version = "=0.10.0", default-features = false, features = ["core", "remote", "tls"] }
serde = { version = "=1.0.229", features = ["derive"] }
serde_json = "=1.0.154"
thiserror = "=2.0.21"
async-trait = "=0.1.92"
tokio = { version = "=1.54.1", features = ["rt", "macros", "net", "io-util"] }
base64 = "=0.23.1"
url = "=2.5.8"
open = "=5.4.5"
reqwest = { version = "=0.12.28", default-features = false, features = ["rustls-tls", "json"] }
