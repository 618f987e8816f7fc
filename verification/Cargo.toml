[package]
name = "jackal"
version = "0.1.0"
edition = "2021"
publish = false

[dependencies]
bytemuck = "1"
colored = "2"
console = "0.15"
crossbeam-queue = "0.3"
term_cursor = "0.2"
term_size = "0.3"
