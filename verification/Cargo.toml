[package]
name = "kairos"
version = "0.1.0"
edition = "2021"
publish = false

[dependencies]
bootloader_api = "0.11"
linked_list_allocator = "0.10"
spin = "0.9"
uart_16550 = "0.3"
x86_64 = { version = "0.15", default-features = false, features = ["instructions"] }
