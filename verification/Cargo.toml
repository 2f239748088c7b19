[package]
name = "squid"
version = "0.1.0"
edition = "2021"
publish = false

[dependencies]
argparse = "0.2"
hyper = "0.10"
hyper-native-tls = "0.3"
threadpool = "1"
time = "0.1"
