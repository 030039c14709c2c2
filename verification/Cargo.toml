[package]
name = "dht_node"
version = "0.1.0"
edition = "2021"
publish = false

[dependencies]
byteorder = "=1.5.0"
sha1 = "=0.1.1"
mio = "=0.5.1"
