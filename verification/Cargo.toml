[package]
name = "dx_todo_app"
version = "0.1.0"
edition = "2021"
publish = false

[dependencies]
chrono = "0.4"
directories = "5"
printpdf = "0.7"

[dev-dependencies]
serde_json = "1"
