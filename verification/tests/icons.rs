use weather_sort::color::Color;
use weather_sort::icons::{draw_icon, IconPixels, Pixel, CLOCK, DROP, THERMOMETER};

fn places(pixels: &IconPixels) -> Vec<(i32, i32)> {
    (0..pixels.count())
        .map(|n| {
            let pixel = pixels.pixel(n);
            assert_eq!(pixel.color, Color::white());
            (pixel.x, pixel.y)
        })
        .collect()
}

#[test]
fn bits_become_pixels_row_by_row() {
    let mut icon = [0u16; 12];
    icon[0] = 0b1000000000010000;
    icon[5] = 0b0100000000000000;
    icon[11] = 0b0000000000011111;
    let pixels = draw_icon(&icon, -3, 100);
    assert_eq!(places(&pixels), vec![(-3, 100), (8, 100), (-2, 105), (8, 111)]);
}

#[test]
fn an_empty_icon_has_no_pixels() {
    assert_eq!(draw_icon(&[0u16; 12], 0, 0).count(), 0);
}

#[test]
fn a_full_icon_fills_its_square() {
    let all = places(&draw_icon(&[0xffffu16; 12], 2, 3));
    assert_eq!(all.len(), 144);
    for n in 0..144 {
        assert_eq!(all[n], (2 + (n % 12) as i32, 3 + (n / 12) as i32));
    }
}

#[test]
fn thermometer_at_its_place() {
    let pixels = draw_icon(&THERMOMETER, 6, 10);
    assert_eq!(pixels.count(), 35);
    assert_eq!(pixels.pixel(0), Pixel { x: 9, y: 10, color: Color::white() });
    assert_eq!(pixels.pixel(34), Pixel { x: 11, y: 20, color: Color::white() });
}

#[test]
fn icons_have_one_pixel_per_bit() {
    for icon in [&THERMOMETER, &DROP, &CLOCK] {
        let bits: u32 = icon.iter().map(|row| row.count_ones()).sum();
        let all = places(&draw_icon(icon, 0, 0));
        assert_eq!(all.len(), bits as usize);
        for (n, place) in all.iter().enumerate() {
            assert!(!all[..n].contains(place));
        }
    }
}

#[test]
fn offsets_reach_the_last_coordinate() {
    let mut icon = [0u16; 12];
    icon[0] = 0b1000000000000000;
    let pixels = draw_icon(&icon, i32::MAX, i32::MAX);
    assert_eq!(places(&pixels), vec![(i32::MAX, i32::MAX)]);
}
