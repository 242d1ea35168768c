[package]
name = "monit"
version = "0.1.0"
edition = "2021"
publish = false

[dependencies]
regex = "=1.13.1"
bson = "=2.15.0"
mongo_driver = "=0.16.3"
