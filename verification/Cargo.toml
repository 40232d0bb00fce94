[package]
name = "i18n_md_email_templates"
version = "0.1.0"
edition = "2021"
publish = false

[dependencies]
css-inline = { version = "*", default-features = false }
pulldown-cmark = "0.12"
serde_json = "1"
