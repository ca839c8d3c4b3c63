[package]
name = "audio_engine"
version = "0.1.0"
edition = "2021"
publish = false

[dependencies]
oddio = "0.6"
cpal = "0.15"
claxon = "0.4"
hound = "3.5"
lewton = "0.10"
minimp3 = "0.5"
parking_lot = "0.12"
