[package]
name = "maplibre"
version = "0.1.0"
edition = "2021"
publish = false

[dependencies]
async-trait = "*"
bytemuck = "*"
cgmath = "*"
csscolorparser = "*"
geozero = { version = "*", features = ["with-mvt"] }
log = "*"
png = "*"
serde_json = "*"
thiserror = "*"
widestring = "*"
