[package]
name = "javalocate"
version = "0.1.0"
edition = "2021"
publish = false

[dependencies]
clap = { version = "3", features = ["derive"] }
confy = "0.4"
exitcode = "1"
java-properties = "1"
plist = "1"
serde = { version = "1", features = ["derive"] }
winreg = "0.10"
