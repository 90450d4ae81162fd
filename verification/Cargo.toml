[package]
name = "bootmgr"
version = "0.1.0"
edition = "2021"
publish = false

[dependencies]
efivar = "*"
