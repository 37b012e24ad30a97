[package]
name = "update_ssh_config"
version = "0.1.0"
edition = "2021"
publish = false

[dependencies]
anyhow = "*"
clap = "*"
dirs-next = "*"
