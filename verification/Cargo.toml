[package]
name = "audio_codec_avs3"
version = "0.1.0"
edition = "2021"
publish = false

[dependencies]
rustfft = "6"
