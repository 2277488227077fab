[package]
name = "kernel_transport"
version = "0.1.0"
edition = "2021"
publish = false

[dependencies]
bbqueue = "0.5"
heapless = "0.7"
cobs = "0.2"
postcard = "0.7"
serde = { version = "1", default-features = false, features = ["derive"] }
usb-device = "0.2"
usbd-serial = "0.1"
defmt = "0.3"
cortex-m = "0.7"
cortex-m-rtic = "1"
nrf52840-hal = "0.14"
embedded-hal = "0.2"
groundhog = "0.2"
groundhog-nrf52 = "0.4"
