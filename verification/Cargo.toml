[package]
name = "rvcd"
version = "0.1.0"
edition = "2021"
publish = false

[dependencies]
num-bigint = "=0.4.8"
regex = "=1.13.1"
trees = "=0.4.2"
queues = "=1.1.0"
vcd = "=0.6.1"
rev_lines = "=0.3.0"
anyhow = "=1.0.104"
clap = { version = "4", features = ["derive"] }
