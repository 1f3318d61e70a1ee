[package]
name = "testdash"
version = "0.1.0"
edition = "2021"
publish = false

[dependencies]
junit-parser = "*"
tokio = { version = "*", features = ["rt-multi-thread", "sync", "macros", "time"] }
clap = { version = "*", features = ["derive"] }
crossterm = "*"
ratatui = "*"
tui-tree-widget = "*"
throbber-widgets-tui = "*"
async-process = "*"
