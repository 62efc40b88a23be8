[package]
name = "rgrok"
version = "0.1.0"
edition = "2021"
publish = false

[dependencies]
regex = "1"
syn = { version = "1", features = ["full"] }
proc-macro2 = { version = "1", features = ["span-locations"] }
syntect = { version = "4", default-features = false, features = ["default-fancy"] }
ignore = "0.4"
crossbeam = "0.8"
rayon = "1"
crossterm = "0.27"
clap = { version = "4", features = ["derive"] }
color-eyre = "0.6"
