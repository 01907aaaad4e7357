use embedded_graphics::pixelcolor::{Rgb565, RgbColor};
use weather_sort::color::{value_color, Color};

fn rgb(r: u8, g: u8, b: u8) -> Color {
    Color { r, g, b }
}

#[test]
fn channels_keep_their_low_bits() {
    assert_eq!(Color::new(31, 63, 31), rgb(31, 63, 31));
    assert_eq!(Color::new(32, 64, 32), rgb(0, 0, 0));
    assert_eq!(Color::new(255, 255, 255), rgb(31, 63, 31));
    assert_eq!(Color::new(212, 100, 77), rgb(20, 36, 13));
}

#[test]
fn black_and_white_are_the_panel_constants() {
    let black = Color::black();
    let white = Color::white();
    assert_eq!(Rgb565::new(black.r, black.g, black.b), Rgb565::BLACK);
    assert_eq!(Rgb565::new(white.r, white.g, white.b), Rgb565::WHITE);
}

#[test]
fn bands_begin_and_end_where_they_should() {
    assert_eq!(value_color(0), rgb(31, 0, 0));
    assert_eq!(value_color(1), rgb(31, 0, 0));
    assert_eq!(value_color(13), rgb(31, 32, 0));
    assert_eq!(value_color(24), rgb(31, 63, 0));
    assert_eq!(value_color(25), rgb(31, 63, 0));
    assert_eq!(value_color(48), rgb(0, 63, 0));
    assert_eq!(value_color(49), rgb(0, 63, 0));
    assert_eq!(value_color(72), rgb(0, 63, 31));
    assert_eq!(value_color(73), rgb(0, 63, 31));
    assert_eq!(value_color(96), rgb(0, 0, 31));
    assert_eq!(value_color(97), rgb(0, 0, 31));
    assert_eq!(value_color(120), rgb(31, 0, 31));
}

#[test]
fn heights_above_the_bands_wrap_the_red_channel() {
    assert_eq!(value_color(121), rgb(0, 0, 31));
    assert_eq!(value_color(130), rgb(12, 0, 31));
    assert_eq!(value_color(255), rgb(20, 0, 31));
}

#[test]
fn no_height_is_black_or_white() {
    for val in 0..=255u8 {
        assert_ne!(value_color(val), Color::black());
        assert_ne!(value_color(val), Color::white());
    }
}
