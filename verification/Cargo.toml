[package]
name = "revng_build"
version = "0.1.0"
edition = "2021"
publish = false

[dependencies]
cc = "1"
clap = "4"
fd-lock = "4"
flate2 = "1"
object = "*"
pkg-config = "0.3"
tar = "0.4"
thiserror = "2"
ureq = "3"
