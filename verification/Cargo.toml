[package]
name = "aoc_core"
version = "0.1.0"
edition = "2021"
publish = false

[dependencies]
itertools = "*"
priority-queue = "*"
gcd = "*"
