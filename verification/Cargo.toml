[package]
name = "ritual"
version = "0.1.0"
edition = "2021"
publish = false

[dependencies]
json = "=0.12.4"
clap = "=2.34.0"
colored = "=2.2.0"
indicatif = "=0.16.2"
# indicatif 0.16.2 takes console with its default features off, and
# then does not build; naming console here switches its `std` feature on.
console = "=0.16.6"
zip = { version = "=0.6.6", default-features = false }
