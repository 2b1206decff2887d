[package]
name = "ctflgrdifflib"
version = "0.1.0"
edition = "2021"
publish = false

[dependencies]
goblin = "=0.10.7"
yaxpeax-arch = "=0.2.8"
yaxpeax-arm = "=0.2.6"
yaxpeax-avr = "=0.1.0"
yaxpeax-x86 = "=1.2.2"
rustc-demangle = "=0.1.28"
cpp_demangle = "=0.5.1"
clap = { version = "=4.6.7", features = ["derive"] }
crossterm = "=0.29.0"
tui = "=0.19.0"
