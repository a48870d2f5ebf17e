[package]
name = "rust_minifilter"
version = "0.1.0"
edition = "2021"
publish = false

[dependencies]
nt-string = "=0.1.2"
hashbrown = "=0.17.1"
spin = "=0.12.3"
log = "=0.4.35"
bitfield = "=0.20.0"
const_format = "=0.2.37"
windows-sys = { version = "=0.61.2", features = ["Wdk_System_Threading"] }
wdk-sys = "=0.5.2"
wdk-panic = "=0.5.0"
kerror = "=0.1.0"
ntresult = "=0.1.0"
