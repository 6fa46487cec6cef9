[package]
name = "jalali_date"
version = "0.1.0"
edition = "2021"
publish = false

[dependencies]
chrono = "0.4"
date_component = "*"
icu_calendar = "1.5"
pgrx = "0.12"
