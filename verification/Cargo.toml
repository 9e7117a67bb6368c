[package]
name = "wudao"
version = "0.1.0"
edition = "2021"
publish = false

[dependencies]
clap = "*"
console = "*"
reqwest = { version = "*", default-features = false }
select = "*"
shlex = "*"
tokio = { version = "*", features = ["rt-multi-thread"] }
