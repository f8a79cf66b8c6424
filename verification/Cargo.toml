[package]
name = "aws_unlock"
version = "0.1.0"
edition = "2021"
publish = false

[dependencies]
anyhow = "*"
cancellable-timer = "*"
clap = { version = "*", features = ["derive"] }
ctrlc = "*"
home = "*"
itertools = "*"
tokio = { version = "*", features = ["macros", "process", "rt-multi-thread", "time"] }
