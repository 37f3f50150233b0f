[package]
name = "mips_emu"
version = "0.1.0"
edition = "2021"
publish = false

[dependencies]
clap = "2"
elf = "0.0.10"
lazy_static = "1"
regex = "1"
