[package]
name = "site_crawler"
version = "0.1.0"
edition = "2021"
publish = false

[dependencies]
url = "2"
scraper = "0.23"
ureq = "2"
crossbeam = "0.8"
