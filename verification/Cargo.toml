[package]
name = "charabia"
version = "0.1.0"
edition = "2021"
publish = false

[dependencies]
aho-corasick = "1"
clap = { version = "4", features = ["derive"] }
csv = "1"
either = "1"
finl_unicode = "1"
fst = "0.4"
jieba-rs = "0.7"
once_cell = "1"
pinyin = "0.10"
regex = "1"
serde = { version = "1", features = ["derive"] }
slice-group-by = "0.3"
unicode-normalization = "0.1"
unicode-segmentation = "1"
wana_kana = "4"
whatlang = "0.16"
