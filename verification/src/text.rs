//! The short texts of the weather screen, in strings of fixed capacity.

use core::fmt::Write;

use heapless::String;
use vstd::prelude::*;

use crate::clock::Clock;

verus! {

/// The bytes that a text of the weather screen has room for.
pub const TEXT_CAPACITY: usize = 16;

/// `String` of heapless: a string that holds up to `N` bytes in place.
#[verifier::external_type_specification]
#[verifier::external_body]
pub struct ExHeaplessString<const N: usize>(heapless::String<N>);

/// The bytes that a `String<16>` of heapless holds, in order.
pub uninterp spec fn text_bytes(text: heapless::String<16>) -> Seq<u8>;

/// Calls `String::new` of heapless. Trusted: the new string is empty.
#[verifier::external_body]
fn empty_text() -> (text: String<16>)
    ensures
        text_bytes(text) == Seq::<u8>::empty(),
{
    String::new()
}

/// Calls `String::push` of heapless with an ASCII character. Trusted: while the
/// string holds fewer than 16 bytes, the character's one byte goes to its end; a
/// full string is left as it is, and the call fails.
#[verifier::external_body]
fn push_ascii(text: &mut String<16>, c: char) -> (result: Result<(), ()>)
    requires
        (c as u32) < 128,
    ensures
        text_bytes(*old(text)).len() < TEXT_CAPACITY ==> result is Ok && text_bytes(*final(text))
            == text_bytes(*old(text)).push(c as u8),
        text_bytes(*old(text)).len() >= TEXT_CAPACITY ==> result is Err && text_bytes(*final(text))
            == text_bytes(*old(text)),
{
    text.push(c)
}

/// Calls `write!` with `{:0width$}` and an integer on a `String` of heapless, whose
/// `fmt::Write` appends what it is given as long as there is room. Trusted: where
/// the number fits, its decimal digits go to the end of the string, behind as many
/// zeros as bring the number to `width` characters; a negative number has a minus
/// sign in front, which counts among them.
#[verifier::external_body]
fn write_integer(text: &mut String<16>, value: i16, width: usize)
    requires
        text_bytes(*old(text)).len() + padded_integer(value as int, width as nat).len()
            <= TEXT_CAPACITY,
    ensures
        text_bytes(*final(text)) == text_bytes(*old(text)) + padded_integer(
            value as int,
            width as nat,
        ),
{
    let _ = write!(text, "{:0width$}", value, width = width);
}

/// The byte of a decimal digit.
pub open spec fn digit(d: nat) -> u8 {
    ('0' as u8 + d) as u8
}

/// The decimal digits of a number, without leading zeros.
pub open spec fn decimal(n: nat) -> Seq<u8>
    decreases n,
{
    if n < 10 {
        seq![digit(n)]
    } else {
        decimal(n / 10).push(digit(n % 10))
    }
}

/// The decimal digits of a number, with zeros before them up to `width` digits.
pub open spec fn padded_decimal(n: nat, width: nat) -> Seq<u8> {
    let digits = decimal(n);
    if digits.len() < width {
        Seq::new((width - digits.len()) as nat, |k: int| digit(0)) + digits
    } else {
        digits
    }
}

/// A number with zeros before its digits up to `width` characters, a minus sign
/// before a negative one included.
pub open spec fn padded_integer(n: int, width: nat) -> Seq<u8> {
    if n >= 0 {
        padded_decimal(n as nat, width)
    } else if width == 0 {
        seq!['-' as u8] + decimal((-n) as nat)
    } else {
        seq!['-' as u8] + padded_decimal((-n) as nat, (width - 1) as nat)
    }
}

/// The decimal digits of a number, behind a minus sign if it is negative.
pub open spec fn signed_decimal(n: int) -> Seq<u8> {
    if n < 0 {
        seq!['-' as u8] + decimal((-n) as nat)
    } else {
        decimal(n as nat)
    }
}

/// A temperature as the screen shows it.
pub open spec fn temperature_bytes(celsius: i8) -> Seq<u8> {
    signed_decimal(celsius as int).push('C' as u8)
}

/// A relative humidity as the screen shows it.
pub open spec fn humidity_bytes(percent: u8) -> Seq<u8> {
    decimal(percent as nat).push('%' as u8)
}

/// Hours and minutes as the screen shows them.
pub open spec fn time_bytes(hours: u8, minutes: u8) -> Seq<u8> {
    padded_decimal(hours as nat, 2).push(':' as u8) + padded_decimal(minutes as nat, 2)
}

/// Numbers below 10, 100 and 1000 have one, two and three digits.
proof fn lemma_decimal_len(n: nat)
    ensures
        n < 10 ==> decimal(n).len() == 1,
        10 <= n < 100 ==> decimal(n).len() == 2,
        100 <= n < 1000 ==> decimal(n).len() == 3,
{
    reveal_with_fuel(decimal, 4);
}

/// A temperature in degrees Celsius.
pub fn temperature_text(celsius: i8) -> (text: String<16>)
    ensures
        text_bytes(text) == temperature_bytes(celsius),
{
    proof {
        lemma_decimal_len(celsius as nat);
        lemma_decimal_len((-(celsius as int)) as nat);
    }
    let mut text = empty_text();
    write_integer(&mut text, celsius as i16, 0);
    let _ = push_ascii(&mut text, 'C');
    assert(text_bytes(text) =~= temperature_bytes(celsius));
    text
}

/// A relative humidity in per cent.
pub fn humidity_text(percent: u8) -> (text: String<16>)
    ensures
        text_bytes(text) == humidity_bytes(percent),
{
    proof {
        lemma_decimal_len(percent as nat);
    }
    let mut text = empty_text();
    write_integer(&mut text, percent as i16, 0);
    let _ = push_ascii(&mut text, '%');
    assert(text_bytes(text) =~= humidity_bytes(percent));
    text
}

/// Hours and minutes of a clock, two digits each.
pub fn time_text(clock: &Clock) -> (text: String<16>)
    ensures
        text_bytes(text) == time_bytes(clock.hours, clock.minutes),
{
    proof {
        lemma_decimal_len(clock.hours as nat);
        lemma_decimal_len(clock.minutes as nat);
    }
    let mut text = empty_text();
    write_integer(&mut text, clock.hours as i16, 2);
    let _ = push_ascii(&mut text, ':');
    write_integer(&mut text, clock.minutes as i16, 2);
    assert(text_bytes(text) =~= time_bytes(clock.hours, clock.minutes));
    text
}

/// Whatever the sensor reports, its texts fit, and the time of day always takes the
/// five places of `hh:mm`.
pub proof fn lemma_texts_fit(celsius: i8, percent: u8, clock: Clock)
    requires
        clock.wf(),
    ensures
        2 <= temperature_bytes(celsius).len() <= 5,
        2 <= humidity_bytes(percent).len() <= 4,
        time_bytes(clock.hours, clock.minutes).len() == 5,
{
    lemma_decimal_len(celsius as nat);
    lemma_decimal_len((-(celsius as int)) as nat);
    lemma_decimal_len(percent as nat);
    lemma_decimal_len(clock.hours as nat);
    lemma_decimal_len(clock.minutes as nat);
}

} // verus!
