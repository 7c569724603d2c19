[package]
name = "java_class_parser"
version = "0.1.0"
edition = "2021"
publish = false

[dependencies]
byteorder = "1"
petgraph = "0.6"
zip = { version = "0.6", default-features = false, features = ["deflate"] }
url = "2"
clap = { version = "4", features = ["derive"] }
thiserror = "1"
