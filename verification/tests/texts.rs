use weather_sort::clock::Clock;
use weather_sort::text::{humidity_text, temperature_text, time_text};

#[test]
fn temperatures() {
    assert_eq!(temperature_text(0).as_str(), "0C");
    assert_eq!(temperature_text(7).as_str(), "7C");
    assert_eq!(temperature_text(27).as_str(), "27C");
    assert_eq!(temperature_text(127).as_str(), "127C");
    assert_eq!(temperature_text(-3).as_str(), "-3C");
    assert_eq!(temperature_text(-128).as_str(), "-128C");
}

#[test]
fn humidities() {
    assert_eq!(humidity_text(0).as_str(), "0%");
    assert_eq!(humidity_text(50).as_str(), "50%");
    assert_eq!(humidity_text(100).as_str(), "100%");
    assert_eq!(humidity_text(255).as_str(), "255%");
}

#[test]
fn every_number_is_written_as_usual() {
    for n in 0..=255u8 {
        assert_eq!(humidity_text(n).as_str(), format!("{}%", n));
        assert_eq!(temperature_text(n as i8).as_str(), format!("{}C", n as i8));
    }
}

#[test]
fn times_have_two_digits_each() {
    let at = |hours: u8, minutes: u8| time_text(&Clock { hours, minutes, seconds: 0 });
    assert_eq!(at(0, 0).as_str(), "00:00");
    assert_eq!(at(7, 5).as_str(), "07:05");
    assert_eq!(at(14, 30).as_str(), "14:30");
    assert_eq!(at(23, 59).as_str(), "23:59");
}
