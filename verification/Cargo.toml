[package]
name = "topic_dispatch"
version = "0.1.0"
edition = "2021"
publish = false

[dependencies]
actix-router = "0.1"
actix-service = "0.3"
futures = "0.1"
