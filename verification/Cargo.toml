[package]
name = "minishogi"
version = "0.1.0"
edition = "2021"
publish = false

[dependencies]
getopts = "0.2"
once_cell = "1"
rand = "0.8"
