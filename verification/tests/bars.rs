use weather_sort::bars::{draw_all_bars, draw_bar, exchange_bars, finale, Effect, Fill, NUM_BARS};
use weather_sort::color::{value_color, Color};

fn slot(k: usize) -> Effect {
    Effect::Fill(Fill {
        x: 12 * k as i32,
        y: 39,
        width: 10,
        height: 95,
        color: Color::black(),
    })
}

fn bar(k: usize, height: u8, color: Color) -> Effect {
    Effect::Fill(Fill {
        x: 12 * k as i32,
        y: 134 - height as i32,
        width: 10,
        height: height as u32,
        color,
    })
}

fn heights() -> [u8; NUM_BARS] {
    [14, 23, 35, 93, 1, 52, 29, 9, 79, 91, 91, 66, 34, 90, 63, 41, 88, 8, 77, 94]
}

#[test]
fn a_bar_clears_its_slot_first() {
    let arr = heights();
    assert_eq!(draw_bar(&arr, 3, false), [slot(3), bar(3, 93, Color { r: 0, g: 9, b: 31 })]);
    assert_eq!(draw_bar(&arr, 3, true), [slot(3), bar(3, 93, Color::white())]);
    assert_eq!(draw_bar(&arr, 19, false)[0], slot(19));
}

#[test]
fn a_bar_may_be_higher_than_its_slot() {
    let arr = [255u8; NUM_BARS];
    assert_eq!(draw_bar(&arr, 0, false)[1], bar(0, 255, value_color(255)));
}

#[test]
fn all_bars_from_left_to_right() {
    let arr = heights();
    let effects = draw_all_bars(&arr);
    for k in 0..NUM_BARS {
        assert_eq!(effects[2 * k], slot(k));
        assert_eq!(effects[2 * k + 1], bar(k, arr[k], value_color(arr[k])));
    }
}

#[test]
fn an_exchange_lights_the_source_and_then_the_target() {
    let mut arr = heights();
    let effects = exchange_bars(&mut arr, 2, 4, 100);
    let mut swapped = heights();
    swapped.swap(2, 4);
    assert_eq!(arr, swapped);
    assert_eq!(
        effects,
        [
            slot(4),
            bar(4, 1, Color::white()),
            Effect::Pause(100),
            slot(4),
            bar(4, 35, value_color(35)),
            slot(2),
            bar(2, 1, Color::white()),
            Effect::Pause(100),
            slot(2),
            bar(2, 1, value_color(1)),
        ]
    );
}

#[test]
fn the_end_of_a_sort_is_green() {
    let arr = heights();
    let effects = finale(&arr);
    assert_eq!(effects[..40], draw_all_bars(&arr));
    assert_eq!(effects[40], Effect::Pause(500));
    for k in 0..NUM_BARS {
        assert_eq!(effects[41 + 3 * k], slot(k));
        assert_eq!(effects[42 + 3 * k], bar(k, arr[k], Color { r: 0, g: 63, b: 0 }));
        assert_eq!(effects[43 + 3 * k], Effect::Pause(80));
    }
    assert_eq!(effects[101], Effect::Pause(3000));
}

fn paint(panel: &mut Vec<Vec<Color>>, effects: &[Effect]) {
    for effect in effects {
        if let Effect::Fill(fill) = effect {
            for y in fill.y..fill.y + fill.height as i32 {
                for x in fill.x..fill.x + fill.width as i32 {
                    panel[y as usize][x as usize] = fill.color;
                }
            }
        }
    }
}

#[test]
fn painting_an_exchange_shows_the_exchanged_bars() {
    let white = Color::white();
    let mut arr = heights();
    let mut panel = vec![vec![white; 240]; 135];
    paint(&mut panel, &draw_all_bars(&arr));
    paint(&mut panel, &exchange_bars(&mut arr, 5, 17, 50));
    for (y, row) in panel.iter().enumerate() {
        for (x, color) in row.iter().enumerate() {
            let k = x / 12;
            if x % 12 < 10 && 39 <= y && y < 134 {
                if y >= 134 - arr[k] as usize {
                    assert_eq!(*color, value_color(arr[k]));
                } else {
                    assert_eq!(*color, Color::black());
                }
            } else {
                assert_eq!(*color, white);
            }
        }
    }
}
