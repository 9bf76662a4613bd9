[package]
name = "mioco"
version = "0.1.0"
edition = "2021"
publish = false

[dependencies]
mio = "=0.4.4"
slab = "=0.1.3"
coroutine = "=0.3.2"
