[package]
name = "chatcmd"
version = "0.1.0"
edition = "2021"
publish = false

[dependencies]
rand = "=0.10.3"
irc = { version = "=1.1.0", default-features = false }
futures-util = "=0.3.34"
