[package]
name = "lisp_hashtable"
version = "0.1.0"
edition = "2021"
publish = false

[dependencies]
fnv = "1.0.7"
libc = "0.2"
