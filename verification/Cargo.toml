[package]
name = "ltc-lab"
version = "0.1.0"
edition = "2021"
publish = false

[dependencies]
cpal = "=0.15.3"
crossterm = "=0.27.0"
ratatui = "=0.27.0"
rtrb = "=0.3.6"
tui-big-text = "=0.4.7"
