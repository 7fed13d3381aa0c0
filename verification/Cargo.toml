[package]
name = "senya"
version = "0.1.0"
edition = "2021"

[dependencies]
regex = "1"
vec_map = "0.8"
hyper = "0.11"
futures = "0.1"
anymap = "0.12"
mime_guess = "2"

[dev-dependencies]
fxhash = "0.2"
