[package]
name = "tui_text"
version = "0.1.0"
edition = "2021"
publish = false

[dependencies]
rustyline = { version = "10.0.0", default-features = false }
textwrap = "=0.16.0"
tui = { version = "0.19.0", default-features = false }
unicode-segmentation = "1.10.0"
unicode-width = "=0.1.10"
