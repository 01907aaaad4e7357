use weather_sort::bars::{exchange_bars, NUM_BARS};
use weather_sort::rng::gen_array;
use weather_sort::sort::Sorter;

fn run(arr: [u8; NUM_BARS]) -> (usize, [u8; NUM_BARS]) {
    let mut sorter = Sorter::new(arr);
    let mut comparisons = 0;
    while !sorter.is_done() {
        sorter.step();
        comparisons += 1;
    }
    (comparisons, sorter.bars())
}

#[test]
fn the_first_bars_take_81_comparisons() {
    let mut seed: u32 = 12345;
    let arr = gen_array(&mut seed);
    let (comparisons, end) = run(arr);
    assert_eq!(comparisons, 81);
    assert_eq!(end, [1, 8, 9, 14, 23, 29, 34, 35, 41, 52, 63, 66, 77, 79, 88, 90, 91, 91, 93, 94]);
}

#[test]
fn the_next_bars_take_93_comparisons() {
    let mut seed: u32 = 4092090893;
    assert_eq!(run(gen_array(&mut seed)).0, 93);
}

#[test]
fn sorted_and_equal_bars_take_the_most() {
    let mut arr = [0u8; NUM_BARS];
    for k in 0..NUM_BARS {
        arr[k] = k as u8;
    }
    assert_eq!(run(arr), (190, arr));
    assert_eq!(run([7; NUM_BARS]), (190, [7; NUM_BARS]));
}

#[test]
fn falling_bars_take_the_most() {
    let mut arr = [0u8; NUM_BARS];
    for k in 0..NUM_BARS {
        arr[k] = 255 - k as u8;
    }
    let (comparisons, end) = run(arr);
    arr.sort();
    assert_eq!(comparisons, 190);
    assert_eq!(end, arr);
}

#[test]
fn many_sorts_end_in_order() {
    let mut seed: u32 = 99;
    for _ in 0..300 {
        let mut arr = gen_array(&mut seed);
        let (comparisons, end) = run(arr);
        arr.sort();
        assert_eq!(end, arr);
        assert!(comparisons <= 190);
    }
}

#[test]
fn a_sort_begins_with_its_bars() {
    let arr = [9u8; NUM_BARS];
    let sorter = Sorter::new(arr);
    assert!(!sorter.is_done());
    assert_eq!(sorter.bars(), arr);
}

#[test]
fn a_low_bar_behind_a_high_one_moves() {
    let mut arr = [50u8; NUM_BARS];
    arr[0] = 90;
    arr[1] = 10;
    let mut sorter = Sorter::new(arr);
    let first = sorter.step();
    assert_eq!((first.exchange, first.pivot), (None, None));
    assert_eq!(sorter.bars(), arr);
    let second = sorter.step();
    assert_eq!(second.exchange, Some(exchange_bars(&mut arr, 0, 1, 100)));
    assert_eq!(second.pivot, None);
    assert_eq!(sorter.bars(), arr);
}

#[test]
fn the_pivot_moves_last() {
    let mut arr = [50u8; NUM_BARS];
    arr[19] = 10;
    let mut sorter = Sorter::new(arr);
    for _ in 0..18 {
        let progress = sorter.step();
        assert_eq!((progress.exchange, progress.pivot), (None, None));
    }
    let last = sorter.step();
    assert_eq!(last.exchange, None);
    assert_eq!(last.pivot, Some(exchange_bars(&mut arr, 0, 19, 50)));
    assert_eq!(sorter.bars(), arr);
}
