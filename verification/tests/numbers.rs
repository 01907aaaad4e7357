use weather_sort::rng::{gen_array, lcg_next};

#[test]
fn generator_steps() {
    let mut seed: u32 = 12345;
    assert_eq!(lcg_next(&mut seed), 87628868);
    assert_eq!(seed, 87628868);
    assert_eq!(lcg_next(&mut seed), 71072467);
}

#[test]
fn generator_wraps() {
    let mut seed: u32 = u32::MAX;
    assert_eq!(lcg_next(&mut seed), 1013904223 - 1664525);
    let mut zero: u32 = 0;
    assert_eq!(lcg_next(&mut zero), 1013904223);
}

#[test]
fn first_bars() {
    let mut seed: u32 = 12345;
    let arr = gen_array(&mut seed);
    assert_eq!(
        arr,
        [14, 23, 35, 93, 1, 52, 29, 9, 79, 91, 91, 66, 34, 90, 63, 41, 88, 8, 77, 94]
    );
    assert_eq!(seed, 4092090893);
}

#[test]
fn bars_are_never_empty_nor_too_high() {
    let mut seed: u32 = 0;
    for _ in 0..500 {
        for height in gen_array(&mut seed) {
            assert!(1 <= height && height <= 95);
        }
    }
}

#[test]
fn different_states_have_different_successors() {
    let mut a: u32 = 1;
    let mut b: u32 = 1 + (1 << 31);
    assert_ne!(lcg_next(&mut a), lcg_next(&mut b));
}
