[package]
name = "split_keyboard"
version = "0.1.0"
edition = "2021"
publish = false

[dependencies]
rmk = "=0.7.8"
embassy-executor = "=0.9.1"
embassy-sync = "=0.8.0"
embassy-embedded-hal = "=0.6.0"
static_cell = "=2.1.1"
defmt = "=1.2.0"
dummy-pin = "=1.0.0"
w25 = "=0.8.0"
