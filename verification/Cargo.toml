[package]
name = "ratatui_form"
version = "0.1.0"
edition = "2021"
publish = false

[dependencies]
regex = "=1.13.1"
unicode-width = "=0.2.0"
ratatui = "=0.29.0"
crossterm = "=0.28.1"
syn = "2"
quote = "1"
proc-macro2 = "1"
proc-macro-crate = "3"
