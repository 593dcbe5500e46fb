[package]
name = "remindbot"
version = "0.1.0"
edition = "2021"
publish = false

[dependencies]
diesel = { version = "*", features = ["sqlite"] }
dotenv = "*"
irc = "*"
tokio = { version = "*", features = ["rt", "macros"] }
futures = "*"
