[package]
name = "ldap-rs"
version = "0.1.0"
edition = "2021"
publish = false

[dependencies]
bytes = "1"
cross-krb5 = "*"
futures = "0.3"
log = "0.4"
native-tls = "0.2"
parking_lot = "0.12"
rasn = "*"
rasn-ldap = "*"
thiserror = "1"
tokio = { version = "1", features = ["net", "time", "rt", "io-util"] }
tokio-native-tls = "0.3"
tokio-util = { version = "0.7", features = ["codec"] }
