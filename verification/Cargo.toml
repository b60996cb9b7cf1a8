[package]
name = "kernel"
version = "0.1.0"
edition = "2021"
publish = false

[dependencies]
acpi = "=4.1.1"
bootloader_api = "=0.11.17"
conquer-once = { version = "=0.4.0", default-features = false }
crossbeam-queue = { version = "=0.3.14", default-features = false, features = ["alloc"] }
futures-util = { version = "=0.3.34", default-features = false, features = ["alloc"] }
lazy_static = { version = "=1.5.1", features = ["spin_no_std"] }
linked_list_allocator = "=0.10.6"
pic8259 = "=0.10.4"
spinning_top = "=0.2.5"
x86_64 = { version = "=0.14.13", default-features = false, features = ["instructions"] }
