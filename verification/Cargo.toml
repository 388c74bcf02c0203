[package]
name = "mydict"
version = "0.1.0"
edition = "2021"
publish = false

[dependencies]
odict = { version = "2", default-features = false }
url = "2"
anyhow = "1"
directories = "*"
tracing = "0.1"
tracing-subscriber = "0.3"
open = "5"
futures-util = "0.3"
i18n-embed = { version = "*", features = ["desktop-requester"] }
