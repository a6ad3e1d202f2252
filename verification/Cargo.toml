[package]
name = "leshy"
version = "0.1.0"
edition = "2021"
publish = false

[dependencies]
base64 = "*"
dynasm = "*"
dynasmrt = "*"
lazy_static = "*"
lazycell = "*"
leb128 = "*"
libc = "*"
memmap = "*"
multimap = { version = "*", default-features = false }
