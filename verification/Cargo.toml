[package]
name = "sse_codec"
version = "0.3.2"
edition = "2021"
publish = false

[dependencies]
bytes = "0.5"
futures_codec = "0.4"
futures-io = "0.3"
memchr = "2"
