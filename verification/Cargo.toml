[package]
name = "indicatif"
version = "0.1.0"
edition = "2021"
publish = false

[dependencies]
unicode-width = "0.1"
clicolors-control = "1"
console = "0.15"
number_prefix = "0.4"
