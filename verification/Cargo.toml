[package]
name = "dsp"
version = "0.1.0"
edition = "2021"
publish = false

[dependencies]
arraydeque = "*"
audrey = "*"
byteorder = "*"
cpal = "*"
num-complex = "*"
rand = "*"
rand_distr = "*"
rustfft = "*"
