[package]
name = "png2webp"
version = "0.1.0"
edition = "2021"
publish = false

[dependencies]
png = "=0.17.16"
webp = { version = "=0.2.6", default-features = false }
byteorder = "*"
riff = "=1.0.1"
rexif = "=0.7.5"
anyhow = "*"
color-print = "*"
crossbeam = "*"
num_cpus = "*"
scheduled-thread-pool = "*"
