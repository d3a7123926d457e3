[package]
name = "artisan_comp"
version = "0.1.0"
edition = "2021"
publish = false

[dependencies]
mago-syntax = "=1.25.2"
mago-syntax-core = "=1.25.2"
mago-database = "=1.25.2"
mago-span = "=1.25.2"
mago-php-version = "=1.25.2"
mago-reporting = "=1.25.2"
mago-text-edit = "=1.25.2"
bumpalo = "3"
serde_json = "=1.0.154"
