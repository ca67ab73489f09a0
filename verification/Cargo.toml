[package]
name = "wiktionary_part_of_speech_extract"
version = "0.1.0"
edition = "2021"
publish = false

[dependencies]
fst = "*"
unidecode = "*"
