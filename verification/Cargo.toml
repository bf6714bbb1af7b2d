[package]
name = "rowscript"
version = "0.1.0"
edition = "2021"
publish = false

[dependencies]
pest = "=2.9.5"
ariadne = "=0.1.5"
thiserror = "=1.0.69"
stacker = "=0.1.25"
