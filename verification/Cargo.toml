[package]
name = "sbpf_byteparser"
version = "0.1.0"
edition = "2021"
publish = false

[dependencies]
either = "1"
object = "=0.40.0"
sbpf-assembler = "=0.3.1"
sbpf-common = "=0.3.1"
