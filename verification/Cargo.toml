[package]
name = "langs"
version = "0.1.0"
edition = "2021"
publish = false

[dependencies]
nom = "=3.2.1"
llvm-sys = "=60.6.0"
libc = "=0.2.191"
tempfile = "=3.27.0"
quickcheck = { version = "=0.6.2", default-features = false }
rand = "=0.4.6"
