[package]
name = "logic_decoder"
version = "0.1.0"
edition = "2021"
publish = false

[dependencies]
anyhow = "=1.0.104"
clap = "=2.34.0"
colored = "=2.2.0"
indicatif = "0.17"
itertools = "=0.10.5"
vcd = "=0.6.1"
