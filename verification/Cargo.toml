[package]
name = "expense_plot"
version = "0.1.0"
edition = "2021"
publish = false

[dependencies]
anyhow = "=1.0.104"
chrono = { version = "=0.4.45", default-features = false, features = ["std", "serde"] }
clap = { version = "=4.6.7", features = ["derive"] }
csv = "=1.4.0"
dark-light = "=2.0.0"
image = { version = "=0.25.10", default-features = false }
plotters = { version = "=0.3.7", default-features = false, features = ["bitmap_backend", "line_series", "all_elements", "ab_glyph", "datetime"] }
rat-salsa = "=2.6.4"
rat-widget = "=2.11.0"
ratatui = "=0.29.0"
ratatui-image = "=8.1.1"
serde = { version = "=1.0.229", features = ["derive"] }
