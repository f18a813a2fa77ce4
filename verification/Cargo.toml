[package]
name = "audio_spectrum"
version = "0.1.0"
edition = "2021"

[dependencies]
bevy = { version = "=0.17.3", default-features = false, features = ["std", "bevy_asset", "bevy_color", "bevy_core_pipeline", "bevy_post_process", "bevy_render", "bevy_sprite", "bevy_sprite_render", "png", "tonemapping_luts", "zstd_rust"] }
rustfft = "=6.4.1"
symphonia = { version = "=0.5.5", features = ["mp3"] }
