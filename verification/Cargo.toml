[package]
name = "dust_mail"
version = "0.1.0"
edition = "2021"
publish = false

[dependencies]
ammonia = "=4.2.4"
async-imap = { version = "=0.12.0", default-features = false, features = ["runtime-tokio"] }
async-native-tls = { version = "=0.6.0", default-features = false, features = ["runtime-tokio"] }
async-pop = { version = "=1.1.3", default-features = false, features = ["runtime-tokio", "sasl", "async-native-tls"] }
async-smtp = { version = "=0.10.2", default-features = false, features = ["runtime-tokio"] }
async-trait = "=0.1.92"
autoconfig = "=0.4.0"
chrono = "=0.4.45"
dns-mail-discover = "=0.2.7"
email = "=0.0.21"
futures = "=0.3.34"
log = "=0.4.34"
mail-builder = "=2.0.0"
maildir = "=0.6.6"
mailparse = "=0.18.0"
mime = "=0.3.17"
ms-autodiscover = "=0.3.3"
serde = { version = "=1.0.229", features = ["derive"] }
serde_json = "=1.0.154"
sled = "=0.34.7"
tokio = { version = "=1.54.1", features = ["net", "time", "rt", "sync", "io-util"] }
