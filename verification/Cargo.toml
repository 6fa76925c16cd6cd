[package]
name = "opendr"
version = "0.1.0"
edition = "2021"
publish = false

[dependencies]
base64 = "0.22"
bincode = "1.3"
clap = { version = "4", features = ["derive"] }
lber = "0.4"
ldap3 = { version = "0.11", default-features = false }
ldap-parser = "*"
log = "0.4"
log4rs = "1"
rand = "0.9"
rasn = "*"
rasn-ldap = "*"
serde = { version = "1", features = ["derive"] }
serde_json = "1"
tokio = { version = "1", features = ["full"] }
url = "2"
uuid = { version = "1", features = ["v4"] }
async-trait = "0.1"
