[package]
name = "hanzi_dict"
version = "0.1.0"
edition = "2021"
publish = false

[dependencies]
cedict = "*"
prettify_pinyin = "*"
pinyin_zhuyin = "*"
kanji_hanzi_converter = "*"
tocfl = "*"
serde = { version = "1", features = ["derive"] }
serde_json = "1"
csv = "1"
calamine = "*"
