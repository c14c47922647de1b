[package]
name = "dsppipeline"
version = "0.1.0"
edition = "2021"
publish = false

[dependencies]
rustfft = "*"
rtl-sdr-rs = "*"
tracing = "*"
tracing-subscriber = "*"
ctrlc = "*"
