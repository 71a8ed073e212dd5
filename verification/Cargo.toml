[package]
name = "sock-it-forward"
version = "0.1.0"
edition = "2021"
publish = false

[dependencies]
arc-swap = "*"
clap = { version = "*", default-features = false, features = ["std", "derive", "help", "usage", "error-context"] }
color-eyre = { version = "*", default-features = false }
futures-util = "*"
iroh = "*"
num_cpus = "*"
proxy-protocol = "*"
tokio = { version = "*", features = ["io-util", "macros", "net", "rt-multi-thread", "sync", "time"] }
tracing = "*"
tracing-subscriber = { version = "*", default-features = false, features = ["env-filter", "fmt"] }
