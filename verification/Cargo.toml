[package]
name = "exam_segmenter"
version = "0.1.0"
edition = "2021"
publish = false

[dependencies]
leptess = "*"
structopt = "0.3"
