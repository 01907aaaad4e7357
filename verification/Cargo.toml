[package]
name = "weather_sort"
version = "0.1.0"
edition = "2021"
publish = false

[dependencies]
embedded-graphics = "0.8"
heapless = "0.8"
dht-sensor = "0.2"
display-interface-spi = "0.5"
embedded-hal-bus = "0.2"
mipidsi = "0.8"
u8g2-fonts = "0.4"
esp-hal = { version = "0.21", features = ["esp32c3"] }
esp-backtrace = { version = "0.14", features = ["esp32c3", "exception-handler", "panic-handler", "println"] }
esp-println = { version = "0.12", features = ["esp32c3", "log"] }
