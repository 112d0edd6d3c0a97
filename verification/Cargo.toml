[package]
name = "syntaks"
version = "0.1.0"
edition = "2021"
publish = false

[dependencies]
arrayvec = "0.7"
static_init = "1"
