[package]
name = "truetop"
version = "0.1.0"
edition = "2021"
publish = false

[dependencies]
anyhow = "=1.0.104"
arc-swap = "1"
aya = "0.14"
aya-ebpf = "=0.1.1"
crossterm = "=0.29.0"
env_logger = "0.11"
libc = "0.2"
log = "0.4"
ratatui = "=0.30.2"
terminal-colorsaurus = "=1.0.3"
tokio = { version = "1", features = ["macros", "rt-multi-thread", "signal", "time"] }
