[package]
name = "fixed_resample"
version = "0.1.0"
edition = "2021"
publish = false

[dependencies]
rubato = "=0.16.2"
ringbuf = "=0.4.8"
fast-interleave = "*"
