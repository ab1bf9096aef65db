[package]
name = "memento"
version = "0.1.0"
edition = "2021"

[dependencies]
ansi_term = "0.12"
clap = "2"
regex = "1"
unidecode = "0.3"
