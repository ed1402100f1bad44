[package]
name = "forkcordion"
version = "0.1.0"
edition = "2021"
publish = false

[dependencies]
time = "=0.3.55"
clap = { version = "=4.6.7", features = ["derive"] }
clio = { version = "=0.3.5", features = ["clap-parse"] }
console = "=0.16.6"
