[package]
name = "sukesuke_bbs_core"
version = "0.1.0"
edition = "2021"
publish = false

[dependencies]
encoding_rs = "*"
sha1 = "*"
base64 = "*"
pwhash = "*"
