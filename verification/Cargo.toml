[package]
name = "string_wrap"
version = "0.1.0"
edition = "2021"
publish = false

[dependencies]
itertools = "0.10"
pulldown-cmark = { version = "0.9", default-features = false }
pulldown-cmark-to-cmark = "10"
regex = "1"
unicode-linebreak = "0.1"
unicode-segmentation = "1"
unicode-width = "0.1"
unicode_categories = "0.1"
