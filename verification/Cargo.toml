[package]
name = "note_player"
version = "0.1.0"
edition = "2021"
publish = false

[dependencies]
futures = "0.1"
midir = "0.5"
serenity = "0.8"
