[package]
name = "par2_packets"
version = "0.1.0"
edition = "2021"

[dependencies]
byteorder = "1"
md5 = "0.7"
