[package]
name = "textbook_rsa"
version = "0.1.0"
edition = "2021"
publish = false

[dependencies]
num-bigint = "0.4"
num-traits = "0.2"
glass_pumpkin = "1"
sha2 = "0.10"
rand = "0.8"
lambdaworks-math = "*"
