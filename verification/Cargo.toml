[package]
name = "mail_gateway"
version = "0.1.0"
edition = "2021"
publish = false

[dependencies]
actix-cors = "0.6"
actix-multipart = "0.6"
actix-session = { version = "0.7", features = ["cookie-session"] }
actix-web = "4"
anyhow = "1"
chrono = { version = "0.4", features = ["serde"] }
data-encoding = "2"
dotenv = "0.15"
futures-util = "0.3"
imap = "2.4"
imap-proto = "0.10"
lettre = { version = "0.10", features = ["tokio1", "tokio1-native-tls"] }
mime_guess = "2"
native-tls = "0.2"
regex = "1"
rustyknife = "*"
serde = { version = "1", features = ["derive"] }
serde_json = "1"
tokio = { version = "1", features = ["macros", "rt-multi-thread"] }
utf7-imap = "*"
