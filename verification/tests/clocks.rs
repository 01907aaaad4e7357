use weather_sort::clock::Clock;

fn after_one_round(hours: u8, minutes: u8, seconds: u8) -> (u8, u8, u8) {
    let mut clock = Clock { hours, minutes, seconds };
    clock.advance();
    (clock.hours, clock.minutes, clock.seconds)
}

#[test]
fn clock_starts_in_the_afternoon() {
    assert_eq!(Clock::new(), Clock { hours: 14, minutes: 30, seconds: 0 });
}

#[test]
fn rounds_carry_over() {
    assert_eq!(after_one_round(14, 30, 0), (14, 30, 2));
    assert_eq!(after_one_round(14, 30, 58), (14, 31, 0));
    assert_eq!(after_one_round(14, 30, 59), (14, 31, 1));
    assert_eq!(after_one_round(14, 59, 58), (15, 0, 0));
    assert_eq!(after_one_round(23, 59, 58), (0, 0, 0));
    assert_eq!(after_one_round(23, 59, 59), (0, 0, 1));
}

#[test]
fn a_day_of_rounds_comes_back() {
    let mut clock = Clock::new();
    for _ in 0..43200 {
        clock.advance();
        assert!(clock.hours < 24 && clock.minutes < 60 && clock.seconds < 60);
    }
    assert_eq!(clock, Clock::new());
}

#[test]
fn rounds_add_up() {
    let mut clock = Clock::new();
    for _ in 0..1800 {
        clock.advance();
    }
    assert_eq!(clock, Clock { hours: 15, minutes: 30, seconds: 0 });
}
