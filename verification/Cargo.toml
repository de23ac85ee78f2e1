[package]
name = "simrv64i"
version = "0.1.0"
edition = "2021"
publish = false

[dependencies]
elf = "0.7"
clap = { version = "4", features = ["derive"] }
libc = "0.2"
syscalls = "0.6"
