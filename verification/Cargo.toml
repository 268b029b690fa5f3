[package]
name = "gdk_display"
version = "0.1.0"
edition = "2021"
publish = false

[dependencies]
glib = "*"
glib-sys = "*"
gdk-sys = "*"
libc = "*"
