[package]
name = "xml_dom_xpath"
version = "0.1.0"
edition = "2021"
publish = false

[dependencies]
xml_dom = "*"
