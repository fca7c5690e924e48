[package]
name = "log_annotator"
version = "0.1.0"
edition = "2021"
publish = false
