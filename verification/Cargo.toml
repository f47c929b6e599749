[package]
name = "stat_tests"
version = "0.1.0"
edition = "2021"
publish = false
