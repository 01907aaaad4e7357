//! What the operations give, stated on their inputs and results alone.

use vstd::prelude::*;

use crate::bars::{Effect, Fill};
#[allow(unused_imports)]
use crate::bars::{
    all_bars_effects, bar_effects, exchange_effects, exchanged, finale_effects, sorted_color,
};
#[allow(unused_imports)]
use crate::canvas::{
    lemma_painted_bar, lemma_played_concat, played, shows_bar,
};
use crate::clock::Clock;
use crate::color::Color;
#[allow(unused_imports)]
use crate::color::{bar_color, black_color, rgb565, white_color};
use crate::controller::{ControllerState, Query, Screen, Show, StageState, IDLE_PAUSE};
#[allow(unused_imports)]
use crate::course::program_start;
use crate::icons::{Pixel, CLOCK, DROP, THERMOMETER};
#[allow(unused_imports)]
use crate::icons::{
    icon_fits, icon_pixels, lemma_icon_pixels_exact, lemma_icon_pixels_ordered, lit,
};
#[allow(unused_imports)]
use crate::rng::{heights_fit, heights_from, lcg, lcg_after};
#[allow(unused_imports)]
use crate::sort::animation;
use crate::sort_model::{SortState, Span};
#[allow(unused_imports)]
use crate::sort_model::{begun, resumed};
#[allow(unused_imports)]
use crate::text::{
    decimal, humidity_bytes, padded_decimal, temperature_bytes, text_bytes, time_bytes,
};
use crate::weather::{Reading, WeatherView};

verus! {

// Colours.

/// A panel colour keeps each requested channel up to what the channel has no bits
/// for: red and blue differ from the request by a multiple of 32, green by one of 64.
pub proof fn lemma_channels(r: u8, g: u8, b: u8)
    ensures
        ({
            let c = rgb565(r as int, g as int, b as int);
            &&& c.r < 32 && (r - c.r) % 32 == 0
            &&& c.g < 64 && (g - c.g) % 64 == 0
            &&& c.b < 32 && (b - c.b) % 32 == 0
        }),
{
}

/// Black has no light in any channel, white has all of it in each, and the colour of
/// a finished sort has all green and nothing else.
pub proof fn lemma_fixed_colors()
    ensures
        black_color() == (Color { r: 0, g: 0, b: 0 }),
        white_color() == (Color { r: 31, g: 63, b: 31 }),
        sorted_color() == (Color { r: 0, g: 63, b: 0 }),
{
}

/// The colour of every height, band by band: red, then green rises, red falls, blue
/// rises, green falls, red rises.
pub proof fn lemma_height_colors(val: u8)
    ensures
        ({
            let c = bar_color(val);
            &&& val == 0 ==> c.r == 31 && c.g == 0 && c.b == 0
            &&& 1 <= val <= 24 ==> c.r == 31 && c.g == (val - 1) * 63 / 23 && c.b == 0
            &&& 25 <= val <= 48 ==> c.r == 31 - (val - 25) * 31 / 23 && c.g == 63 && c.b == 0
            &&& 49 <= val <= 72 ==> c.r == 0 && c.g == 63 && c.b == (val - 49) * 31 / 23
            &&& 73 <= val <= 96 ==> c.r == 0 && c.g == 63 - (val - 73) * 63 / 23 && c.b == 31
            &&& 97 <= val ==> c.r == ((val - 97) * 31 / 23) % 32 && c.g == 0 && c.b == 31
        }),
{
}

/// Neighbouring heights have neighbouring colours: from one height to the next no
/// channel changes by more than 3, and within a band one channel moves one way,
/// by at least 1, while the others rest.
pub proof fn lemma_height_colors_smooth(val: u8)
    requires
        1 <= val < 120,
    ensures
        ({
            let a = bar_color(val);
            let b = bar_color((val + 1) as u8);
            &&& -3 <= b.r - a.r <= 3 && -3 <= b.g - a.g <= 3 && -3 <= b.b - a.b <= 3
            &&& val < 24 ==> a.r == b.r && a.g < b.g && a.b == b.b
            &&& 25 <= val < 48 ==> a.r > b.r && a.g == b.g && a.b == b.b
            &&& 49 <= val < 72 ==> a.r == b.r && a.g == b.g && a.b < b.b
            &&& 73 <= val < 96 ==> a.r == b.r && a.g > b.g && a.b == b.b
            &&& 97 <= val ==> a.r < b.r && a.g == b.g && a.b == b.b
        }),
{
    let next = (val + 1) as u8;
    lemma_height_colors(val);
    lemma_height_colors(next);
    if val < 24 {
        lemma_one_step(val - 1);
    } else if 25 <= val < 48 {
        lemma_one_step(val - 25);
    } else if 49 <= val < 72 {
        lemma_one_step(val - 49);
    } else if 73 <= val < 96 {
        lemma_one_step(val - 73);
    } else if 97 <= val {
        lemma_one_step(val - 97);
    }
}

proof fn lemma_one_step(pos: int)
    requires
        0 <= pos < 23,
    ensures
        pos * 31 / 23 + 1 <= (pos + 1) * 31 / 23 <= pos * 31 / 23 + 2,
        pos * 63 / 23 + 2 <= (pos + 1) * 63 / 23 <= pos * 63 / 23 + 3,
        0 <= pos * 31 / 23,
        (pos + 1) * 31 / 23 <= 31,
{
}

// Numbers.

/// The generator's next state is congruent to the affine image of the last.
pub proof fn lemma_lcg_congruent(seed: u32)
    ensures
        (1664525 * seed + 1013904223 - lcg(seed)) % 0x1_0000_0000 == 0,
{
}

/// The states follow one another: none is skipped and none repeated.
pub proof fn lemma_lcg_sequence(seed: u32, n: nat)
    ensures
        lcg_after(seed, 0) == seed,
        (1664525 * lcg_after(seed, n) + 1013904223 - lcg_after(seed, n + 1)) % 0x1_0000_0000 == 0,
{
    lemma_lcg_congruent(lcg_after(seed, n));
}

/// There are twenty heights; each is from 1 to 95 and one more than the residue of
/// its state modulo 95.
pub proof fn lemma_heights(seed: u32, k: int)
    requires
        0 <= k < 20,
    ensures
        heights_from(seed).len() == 20,
        1 <= heights_from(seed)[k] <= 95,
        (lcg_after(seed, (k + 1) as nat) - (heights_from(seed)[k] - 1)) % 95 == 0,
{
}

// The clock.

/// A round moves the clock on by two seconds; the day after 23:59:59 is a new one.
pub proof fn lemma_round_moves_two_seconds(clock: Clock)
    requires
        clock.hours < 24,
        clock.minutes < 60,
        clock.seconds < 60,
    ensures
        ({
            let next = clock.round_later();
            let before = 3600 * clock.hours + 60 * clock.minutes + clock.seconds;
            let after = 3600 * next.hours + 60 * next.minutes + next.seconds;
            &&& next.hours < 24 && next.minutes < 60 && next.seconds < 60
            &&& before < 86398 ==> after == before + 2
            &&& before >= 86398 ==> after == before + 2 - 86400
            &&& clock.seconds < 58 ==> next.seconds == clock.seconds + 2 && next.minutes
                == clock.minutes && next.hours == clock.hours
        }),
{
    let total = clock.total();
    assert(0 <= total < 86400);
    let later = (total + 2) % 86400;
    assert(clock.round_later() == crate::clock::time_at(later));
    crate::clock::lemma_seconds_round_trip(later);
}

// Texts.

/// A humidity: its decimal digits without leading zeros, then a per cent sign.
pub proof fn lemma_humidity_bytes(percent: u8)
    ensures
        percent < 10 ==> humidity_bytes(percent) == seq![(48 + percent) as u8, 37u8],
        10 <= percent < 100 ==> humidity_bytes(percent) == seq![
            (48 + percent / 10) as u8,
            (48 + percent % 10) as u8,
            37u8,
        ],
        100 <= percent ==> humidity_bytes(percent) == seq![
            (48 + percent / 100) as u8,
            (48 + percent / 10 % 10) as u8,
            (48 + percent % 10) as u8,
            37u8,
        ],
{
    lemma_digits(percent as nat);
}

/// A temperature: a minus sign if it is below zero, its decimal digits without
/// leading zeros, then a C.
pub proof fn lemma_temperature_bytes(celsius: i8)
    ensures
        ({
            let bytes = temperature_bytes(celsius);
            let sign = if celsius < 0 { 1int } else { 0int };
            let size = if celsius < 0 { -(celsius as int) } else { celsius as int };
            let digits = if size < 10 { 1int } else if size < 100 { 2int } else { 3int };
            &&& bytes.len() == sign + digits + 1
            &&& celsius < 0 ==> bytes[0] == 45
            &&& size >= 100 ==> bytes[sign] == 48 + size / 100
            &&& size >= 10 ==> bytes[sign + digits - 2] == 48 + size / 10 % 10
            &&& bytes[sign + digits - 1] == 48 + size % 10
            &&& bytes[sign + digits] == 67
        }),
{
    lemma_digits(celsius as nat);
    lemma_digits((-(celsius as int)) as nat);
}

/// A time of day: tens and ones of the hours, a colon, tens and ones of the minutes.
pub proof fn lemma_time_bytes(hours: u8, minutes: u8)
    requires
        hours < 100,
        minutes < 100,
    ensures
        time_bytes(hours, minutes) == seq![
            (48 + hours / 10) as u8,
            (48 + hours % 10) as u8,
            58u8,
            (48 + minutes / 10) as u8,
            (48 + minutes % 10) as u8,
        ],
{
    lemma_digits(hours as nat);
    lemma_digits(minutes as nat);
}

/// What the clock's text says can be read back: the number in front of the colon is
/// the hours, the number behind it is the minutes, each of at least two digits.
pub proof fn lemma_time_reads_back(hours: u8, minutes: u8)
    ensures
        ({
            let bytes = time_bytes(hours, minutes);
            let h = if hours < 100 { 2int } else { 3int };
            let m = if minutes < 100 { 2int } else { 3int };
            &&& bytes.len() == h + 1 + m
            &&& bytes[h] == 58
            &&& hours == (if h == 3 { 100 * (bytes[0] - 48) } else { 0 }) + 10 * (bytes[h - 2]
                - 48) + (bytes[h - 1] - 48)
            &&& minutes == (if m == 3 { 100 * (bytes[h + 1] - 48) } else { 0 }) + 10 * (bytes[h + m
                - 1] - 48) + (bytes[h + m] - 48)
            &&& forall|k: int| 0 <= k < bytes.len() && k != h ==> 48 <= #[trigger] bytes[k] <= 57
        }),
{
    lemma_digits(hours as nat);
    lemma_digits(minutes as nat);
}

proof fn lemma_digits(n: nat)
    ensures
        n < 10 ==> decimal(n) == seq![(48 + n) as u8],
        10 <= n < 100 ==> decimal(n) == seq![(48 + n / 10) as u8, (48 + n % 10) as u8],
        100 <= n < 1000 ==> decimal(n) == seq![
            (48 + n / 100) as u8,
            (48 + n / 10 % 10) as u8,
            (48 + n % 10) as u8,
        ],
        n < 10 ==> padded_decimal(n, 2) == seq![48u8, (48 + n) as u8],
        10 <= n < 1000 ==> padded_decimal(n, 2) == decimal(n),
{
    reveal_with_fuel(decimal, 4);
}

// Icons.

/// Column `x` of an icon's row is set: its bit `15 - x`.
pub open spec fn bit_set(row: u16, x: int) -> bool {
    row & (1u16 << (15 - x) as u16) != 0
}

/// An icon may stand wherever each bit that is set has coordinates.
pub proof fn lemma_icon_places(icon: Seq<u16>, x_off: i32, y_off: i32)
    requires
        forall|x: int, y: int|
            0 <= x < 12 && 0 <= y < 12 && #[trigger] bit_set(icon[y], x) ==> x_off + x
                <= 0x7fff_ffff && y_off + y <= 0x7fff_ffff,
    ensures
        icon_fits(icon, x_off as int, y_off as int),
{
    assert forall|x: int, y: int| 0 <= x < 12 && 0 <= y < 12 && #[trigger] lit(icon, x, y) implies
        x_off + x <= 0x7fff_ffff && y_off + y <= 0x7fff_ffff by {
        assert(bit_set(icon[y], x));
    }
}

/// The pixel in column `x` and row `y` of an icon's square is painted white exactly
/// if bit `15 - x` of the icon's own entry `y` is set.
pub proof fn lemma_icon_bits(icon: Seq<u16>, x_off: i32, y_off: i32, x: int, y: int)
    requires
        icon_fits(icon, x_off as int, y_off as int),
        0 <= x < 12,
        0 <= y < 12,
        x_off + x <= 0x7fff_ffff,
        y_off + y <= 0x7fff_ffff,
    ensures
        icon_pixels(icon, x_off as int, y_off as int, 144).contains(
            Pixel {
                x: (x_off + x) as i32,
                y: (y_off + y) as i32,
                color: Color { r: 31, g: 63, b: 31 },
            },
        ) <==> icon[y] & (1u16 << (15 - x) as u16) != 0,
{
    let pixel = Pixel {
        x: (x_off + x) as i32,
        y: (y_off + y) as i32,
        color: Color { r: 31, g: 63, b: 31 },
    };
    lemma_icon_pixels_exact(icon, x_off as int, y_off as int, pixel);
}

/// Every pixel of an icon is white and lies in its square, and the pixels come row
/// by row, each row from left to right.
pub proof fn lemma_icon_order(icon: Seq<u16>, x_off: i32, y_off: i32, a: int, b: int)
    requires
        icon_fits(icon, x_off as int, y_off as int),
        0 <= a <= b < icon_pixels(icon, x_off as int, y_off as int, 144).len(),
    ensures
        ({
            let pixels = icon_pixels(icon, x_off as int, y_off as int, 144);
            &&& x_off <= pixels[a].x < x_off + 12
            &&& y_off <= pixels[a].y < y_off + 12
            &&& pixels[a].color == (Color { r: 31, g: 63, b: 31 })
            &&& a < b ==> pixels[a].y < pixels[b].y || (pixels[a].y == pixels[b].y && pixels[a].x
                < pixels[b].x)
        }),
{
    let pixels = icon_pixels(icon, x_off as int, y_off as int, 144);
    assert(pixels.contains(pixels[a]));
    lemma_icon_pixels_exact(icon, x_off as int, y_off as int, pixels[a]);
    if a < b {
        lemma_icon_pixels_ordered(icon, x_off as int, y_off as int, 144, a, b);
    }
}

// Bars.

/// One bar: the ten by 95 pixels of its slot, which begin at column `12 * k` and row
/// 39, are filled with black; then the bar stands on row 133 with its own height. A
/// bar that is moved is white whatever its height; any other has the colour of its
/// height.
pub proof fn lemma_bar_fills(arr: Seq<u8>, k: int, active: bool)
    requires
        0 <= k < 20,
        arr.len() == 20,
    ensures
        bar_effects(arr, k, active).len() == 2,
        bar_effects(arr, k, active)[0] == Effect::Fill(
            Fill {
                x: (12 * k) as i32,
                y: 39,
                width: 10,
                height: 95,
                color: Color { r: 0, g: 0, b: 0 },
            },
        ),
        bar_effects(arr, k, active)[1] matches Effect::Fill(fill) && {
            &&& fill.x == 12 * k
            &&& fill.y + fill.height == 134
            &&& fill.width == 10
            &&& fill.height == arr[k]
            &&& active ==> fill.color.r == 31 && fill.color.g == 63 && fill.color.b == 31
            &&& !active ==> fill.color == bar_color(arr[k])
        },
{
}

/// All bars: bar `k` is painted as number `k`, as one bar that is not moved.
pub proof fn lemma_all_bars_in_turn(arr: Seq<u8>, k: int)
    requires
        0 <= k < 20,
    ensures
        all_bars_effects(arr).len() == 40,
        all_bars_effects(arr).subrange(2 * k, 2 * k + 2) == bar_effects(arr, k, false),
{
    assert(all_bars_effects(arr).subrange(2 * k, 2 * k + 2) =~= bar_effects(arr, k, false));
}

/// An exchange gives each of two bars the height of the other, and no other bar
/// changes.
pub proof fn lemma_exchange_swaps(arr: Seq<u8>, i: int, j: int, k: int)
    requires
        0 <= i < arr.len(),
        0 <= j < arr.len(),
        0 <= k < arr.len(),
    ensures
        exchanged(arr, i, j).len() == arr.len(),
        exchanged(arr, i, j)[i] == arr[j],
        exchanged(arr, i, j)[j] == arr[i],
        k != i && k != j ==> exchanged(arr, i, j)[k] == arr[k],
{
}

/// What is seen of an exchange, whatever stood in the two slots before: there are two
/// pauses of `ms`; at the first, bar `j` stands in its old height, white; at the
/// second, bar `i` stands in the height that it was given, white; at the end bar `i`
/// has the colour of its height.
pub proof fn lemma_exchange_lights_up(
    picture: spec_fn(int, int) -> Color,
    arr: Seq<u8>,
    i: int,
    j: int,
    ms: u32,
)
    requires
        heights_fit(arr),
        0 <= i < 20,
        0 <= j < 20,
    ensures
        ({
            let effects = exchange_effects(arr, i, j, ms);
            let white = Color { r: 31, g: 63, b: 31 };
            &&& effects.len() == 10
            &&& forall|n: int|
                0 <= n < 10 ==> (#[trigger] effects[n] is Pause <==> n == 2 || n == 7)
            &&& effects[2] == Effect::Pause(ms)
            &&& effects[7] == Effect::Pause(ms)
            &&& shows_bar(played(picture, effects.take(2)), j, arr[j], white)
            &&& shows_bar(played(picture, effects.take(7)), i, arr[j], white)
            &&& shows_bar(played(picture, effects), i, arr[j], bar_color(arr[j]))
        }),
{
    let effects = exchange_effects(arr, i, j, ms);
    let after = exchanged(arr, i, j);
    lemma_painted_bar(picture, j, arr[j], white_color());
    assert(effects.take(2) =~= bar_effects(arr, j, true));
    assert(effects.take(7) =~= effects.take(5) + bar_effects(after, i, true));
    lemma_played_concat(picture, effects.take(5), bar_effects(after, i, true));
    lemma_painted_bar(played(picture, effects.take(5)), i, after[i], white_color());
    assert(effects =~= effects.take(8) + bar_effects(after, i, false));
    lemma_played_concat(picture, effects.take(8), bar_effects(after, i, false));
    lemma_painted_bar(played(picture, effects.take(8)), i, after[i], bar_color(after[i]));
}

/// The order of an exchange, for bars of any height: bar `j` is painted lit up as it
/// was; after a pause it is painted as bar `j` of the exchanged bars, and bar `i` of
/// these lit up; after another pause bar `i` is painted as it then is.
pub proof fn lemma_exchange_in_turn(arr: Seq<u8>, i: int, j: int, ms: u32)
    requires
        0 <= i < 20,
        0 <= j < 20,
    ensures
        ({
            let effects = exchange_effects(arr, i, j, ms);
            let after = exchanged(arr, i, j);
            &&& effects.len() == 10
            &&& effects.subrange(0, 2) == bar_effects(arr, j, true)
            &&& effects[2] == Effect::Pause(ms)
            &&& effects.subrange(3, 5) == bar_effects(after, j, false)
            &&& effects.subrange(5, 7) == bar_effects(after, i, true)
            &&& effects[7] == Effect::Pause(ms)
            &&& effects.subrange(8, 10) == bar_effects(after, i, false)
        }),
{
    let effects = exchange_effects(arr, i, j, ms);
    let after = exchanged(arr, i, j);
    assert(effects.subrange(0, 2) =~= bar_effects(arr, j, true));
    assert(effects.subrange(3, 5) =~= bar_effects(after, j, false));
    assert(effects.subrange(5, 7) =~= bar_effects(after, i, true));
    assert(effects.subrange(8, 10) =~= bar_effects(after, i, false));
}

/// The end of a sort: all bars as they are, half a second, then bar after bar in full
/// green with 80 ms after each, and three seconds at last.
pub proof fn lemma_finale_in_turn(arr: Seq<u8>, k: int)
    requires
        0 <= k < 20,
        arr.len() == 20,
    ensures
        ({
            let effects = finale_effects(arr);
            let bar = bar_effects(arr, k, false);
            &&& effects.len() == 102
            &&& effects.take(40) == all_bars_effects(arr)
            &&& effects[40] == Effect::Pause(500)
            &&& effects[41 + 3 * k] == bar[0]
            &&& bar[1] matches Effect::Fill(plain) && effects[42 + 3 * k] == Effect::Fill(
                Fill { color: Color { r: 0, g: 63, b: 0 }, ..plain },
            )
            &&& effects[43 + 3 * k] == Effect::Pause(80)
            &&& effects[101] == Effect::Pause(3000)
        }),
{
    assert(finale_effects(arr).take(40) =~= all_bars_effects(arr));
}

// The sort.

/// A sort begins with the whole array as one partition around its last bar.
pub proof fn lemma_sort_begins(arr: Seq<u8>)
    ensures
        begun(arr).arr == arr,
        begun(arr).pending.len() == 0,
        begun(arr).span == Some(Span { lo: 0, hi: 19, split: 0, next: 0 }),
{
    assert(seq![(0int, 19int)].drop_last() =~= Seq::<(int, int)>::empty());
}

/// Between partitions, the topmost range of at least two entries is taken: everything
/// below it stays, and everything above it has one entry only. A sort ends when
/// there is no such range.
pub proof fn lemma_topmost_range_taken(arr: Seq<u8>, pending: Seq<(int, int)>)
    ensures
        ({
            let s = resumed(arr, pending);
            let m = s.pending.len() as int;
            &&& s.arr == arr
            &&& s.pending == pending.take(m)
            &&& s.span matches Some(span) ==> {
                &&& m < pending.len()
                &&& (span.lo, span.hi) == pending[m]
                &&& span.lo < span.hi
                &&& span.split == span.lo && span.next == span.lo
                &&& forall|k: int|
                    m < k < pending.len() ==> (#[trigger] pending[k]).0 >= pending[k].1
            }
            &&& s.span is None ==> m == 0 && forall|k: int|
                0 <= k < pending.len() ==> (#[trigger] pending[k]).0 >= pending[k].1
        }),
    decreases pending.len(),
{
    if pending.len() > 0 {
        let (lo, hi) = pending.last();
        let rest = pending.drop_last();
        if lo < hi {
            assert(rest =~= pending.take(pending.len() - 1));
        } else {
            lemma_topmost_range_taken(arr, rest);
            let m = resumed(arr, pending).pending.len() as int;
            assert(rest.take(m) =~= pending.take(m));
            assert(forall|k: int| 0 <= k < rest.len() ==> #[trigger] pending[k] == rest[k]);
        }
    } else {
        assert(pending.take(0) =~= pending);
    }
}

/// A sort is finished exactly if no partition is in progress, and an animation is the
/// effects that it holds.
pub proof fn lemma_sort_reports(s: SortState, effects: [Effect; 10])
    ensures
        s.done() <==> s.span is None,
        animation(Some(effects)) == Some(effects@),
        animation(None) is None,
{
}

/// A comparison that does not end its partition compares bar `next` with the bar at
/// the end of the range. A bar that is not higher changes places with the bar at the
/// split, which moves on; the ranges on the stack wait.
pub proof fn lemma_comparison_within_partition(s: SortState, lo: int, hi: int, split: int, next: int)
    requires
        s.wf(),
        s.span == Some(Span { lo, hi, split, next }),
        next + 1 < hi,
    ensures
        s.stepped().pending == s.pending,
        s.arr[next] <= s.arr[hi] ==> {
            &&& s.stepped().span == Some(Span { lo, hi, split: split + 1, next: next + 1 })
            &&& s.stepped().arr == s.arr.update(split, s.arr[next]).update(next, s.arr[split])
        },
        s.arr[next] > s.arr[hi] ==> {
            &&& s.stepped().span == Some(Span { lo, hi, split, next: next + 1 })
            &&& s.stepped().arr == s.arr
        },
{
}

/// The last comparison of a partition: the pivot comes to stand behind the bars that
/// are not higher; what lies left of it and right of it goes on the stack in this
/// order, unless it is empty.
pub proof fn lemma_comparison_ends_partition(s: SortState, lo: int, hi: int, split: int, next: int)
    requires
        s.wf(),
        s.span == Some(Span { lo, hi, split, next }),
        next + 1 == hi,
    ensures
        ({
            let low = s.arr[next] <= s.arr[hi];
            let place = if low { split + 1 } else { split };
            let mid = if low {
                s.arr.update(split, s.arr[next]).update(next, s.arr[split])
            } else {
                s.arr
            };
            let arr = mid.update(place, s.arr[hi]).update(hi, mid[place]);
            let left = if place > lo { s.pending.push((lo, place - 1)) } else { s.pending };
            let both = if place < hi { left.push((place + 1, hi)) } else { left };
            s.stepped() == resumed(arr, both)
        }),
{
    let span = s.span->0;
    assert(s.open_ranges().last() == (lo, hi));
    let left = s.pending + s.low_part();
    let place = s.split_compared();
    assert(left =~= if place > lo { s.pending.push((lo, place - 1)) } else { s.pending });
    assert(left + s.high_part() =~= if place < hi { left.push((place + 1, hi)) } else { left });
}

/// What is shown of a comparison: an exchange of the bar compared and the bar at the
/// split, in steps of 100 ms, if the bar is not higher than the pivot and moves; and,
/// at the end of a partition, an exchange of the pivot and the bar at its place, in
/// steps of 50 ms, if the pivot moves.
pub proof fn lemma_comparison_shown(s: SortState, lo: int, hi: int, split: int, next: int)
    requires
        s.wf(),
        s.span == Some(Span { lo, hi, split, next }),
    ensures
        ({
            let low = s.arr[next] <= s.arr[hi];
            let place = if low { split + 1 } else { split };
            let mid = if low { exchanged(s.arr, split, next) } else { s.arr };
            &&& low && split != next ==> s.exchange_shown() == Some(
                exchange_effects(s.arr, split, next, 100),
            )
            &&& !low || split == next ==> s.exchange_shown() is None
            &&& next + 1 == hi && place != hi ==> s.pivot_shown() == Some(
                exchange_effects(mid, place, hi, 50),
            )
            &&& next + 1 < hi || place == hi ==> s.pivot_shown() is None
        }),
{
    assert(s.open_ranges().last() == (lo, hi));
}

/// The state after `n` more comparisons.
pub open spec fn stepped_on(s: SortState, n: nat) -> SortState
    decreases n,
{
    if n == 0 {
        s
    } else {
        stepped_on(s, (n - 1) as nat).stepped()
    }
}

/// A partition under way: the bars that have been found not higher than the pivot
/// stand at the beginning of the range in the order in which they stood before;
/// nothing has changed outside what was compared.
pub proof fn lemma_partition_gathers_low_bars(s: SortState, lo: int, hi: int, n: nat)
    requires
        s.wf(),
        s.span == Some(Span { lo, hi, split: lo, next: lo }),
        lo + n < hi,
    ensures
        ({
            let t = stepped_on(s, n);
            let pivot = s.arr[hi];
            let lows = s.arr.subrange(lo, lo + n).filter(|v: u8| v <= pivot);
            &&& t.wf()
            &&& t.pending == s.pending
            &&& t.span == Some(Span { lo, hi, split: lo + lows.len(), next: lo + n })
            &&& t.arr.subrange(lo, lo + lows.len()) == lows
            &&& forall|k: int|
                0 <= k < lo || lo + n <= k < 20 ==> #[trigger] t.arr[k] == s.arr[k]
        }),
    decreases n,
{
    let pivot = s.arr[hi];
    let is_low = |v: u8| v <= pivot;
    reveal(Seq::filter);
    assert(s.open_ranges().last() == (lo, hi));
    if n == 0 {
        assert(s.arr.subrange(lo, lo) =~= Seq::<u8>::empty());
        assert(s.arr.subrange(lo, lo).filter(is_low) =~= Seq::<u8>::empty());
    } else {
        let m = (n - 1) as nat;
        lemma_partition_gathers_low_bars(s, lo, hi, m);
        let b = stepped_on(s, m);
        let seen = s.arr.subrange(lo, lo + m);
        let lows = seen.filter(is_low);
        crate::sort_model::lemma_stepped_wf(b);
        lemma_comparison_within_partition(b, lo, hi, lo + lows.len(), lo + m);
        let t = b.stepped();
        assert(b.open_ranges().last() == (lo, hi));
        assert(s.arr.subrange(lo, lo + n) =~= seen.push(s.arr[lo + m]));
        assert(seen.push(s.arr[lo + m]).drop_last() =~= seen);
        assert(b.arr[lo + m] == s.arr[lo + m]);
        if s.arr[lo + m] <= pivot {
            assert(s.arr.subrange(lo, lo + n).filter(is_low) == lows.push(s.arr[lo + m]));
            assert(t.arr.subrange(lo, lo + lows.len() + 1) =~= b.arr.subrange(
                lo,
                lo + lows.len(),
            ).push(s.arr[lo + m]));
        } else {
            assert(s.arr.subrange(lo, lo + n).filter(is_low) == lows);
        }
    }
}

// The weather screen.

/// The three icons, row by row.
pub proof fn lemma_icon_shapes()
    ensures
        THERMOMETER@ == seq![
            0x1800u16, 0x2400, 0x2400, 0x2c00, 0x2c00, 0x2c00, 0x2c00, 0x4e00, 0x5e00, 0x4e00,
            0x3c00, 0,
        ],
        DROP@ == seq![
            0x1000u16, 0x1000, 0x3800, 0x3800, 0x7c00, 0x7c00, 0xfe00, 0xfe00, 0xfe00, 0x7c00,
            0x3800, 0,
        ],
        CLOCK@ == seq![
            0x1c00u16, 0x6300, 0x4100, 0x8880, 0x8880, 0x8e80, 0x8080, 0x8080, 0x4100, 0x6300,
            0x1c00, 0,
        ],
{
}

/// A successful measurement lights the lamp, and the screen shows what was measured,
/// digit by digit; after a failed one the lamp is off and the screen shows zeros.
pub proof fn lemma_weather_shows_measurement(
    view: WeatherView,
    reading: Option<Reading>,
    clock: Clock,
)
    requires
        view.shows(reading, clock),
    ensures
        view.lamp <==> reading is Some,
        reading matches Some(r) ==> {
            &&& text_bytes(view.temperature.text) == temperature_bytes(r.temperature)
            &&& text_bytes(view.humidity.text) == humidity_bytes(r.humidity)
            &&& r.humidity < 10 ==> text_bytes(view.humidity.text) == seq![
                (48 + r.humidity) as u8,
                37u8,
            ]
            &&& 10 <= r.humidity < 100 ==> text_bytes(view.humidity.text) == seq![
                (48 + r.humidity / 10) as u8,
                (48 + r.humidity % 10) as u8,
                37u8,
            ]
            &&& 0 <= r.temperature < 10 ==> text_bytes(view.temperature.text) == seq![
                (48 + r.temperature) as u8,
                67u8,
            ]
            &&& 10 <= r.temperature < 100 ==> text_bytes(view.temperature.text) == seq![
                (48 + r.temperature / 10) as u8,
                (48 + r.temperature % 10) as u8,
                67u8,
            ]
            &&& -10 < r.temperature < 0 ==> text_bytes(view.temperature.text) == seq![
                45u8,
                (48 - r.temperature) as u8,
                67u8,
            ]
        },
        reading is None ==> {
            &&& text_bytes(view.temperature.text) == seq![48u8, 67u8]
            &&& text_bytes(view.humidity.text) == seq![48u8, 37u8]
        },
{
    let shown = match reading {
        Some(r) => r,
        None => Reading { temperature: 0, humidity: 0 },
    };
    lemma_temperature_bytes(shown.temperature);
    lemma_humidity_bytes(shown.humidity);
    let bytes = temperature_bytes(shown.temperature);
    let t = shown.temperature;
    if 0 <= t < 10 {
        assert(bytes =~= seq![(48 + t) as u8, 67u8]);
    } else if 10 <= t < 100 {
        assert(bytes =~= seq![(48 + t / 10) as u8, (48 + t % 10) as u8, 67u8]);
    } else if -10 < t < 0 {
        assert(bytes =~= seq![45u8, (48 - t) as u8, 67u8]);
    }
}

/// Two measurements that look alike on the screen are alike.
pub proof fn lemma_weather_tells_measurements_apart(
    a: WeatherView,
    b: WeatherView,
    first: Reading,
    second: Reading,
    clock: Clock,
)
    requires
        a.shows(Some(first), clock),
        b.shows(Some(second), clock),
        text_bytes(a.temperature.text) == text_bytes(b.temperature.text),
        text_bytes(a.humidity.text) == text_bytes(b.humidity.text),
    ensures
        first == second,
{
    lemma_temperature_bytes(first.temperature);
    lemma_temperature_bytes(second.temperature);
    lemma_humidity_bytes(first.humidity);
    lemma_humidity_bytes(second.humidity);
    let x = humidity_bytes(first.humidity);
    let y = humidity_bytes(second.humidity);
    assert(forall|k: int| 0 <= k < x.len() ==> #[trigger] x[k] == y[k]);
}

/// The time on the screen is the clock's, whatever was measured.
pub proof fn lemma_weather_shows_time(view: WeatherView, reading: Option<Reading>, clock: Clock)
    requires
        view.shows(reading, clock),
    ensures
        text_bytes(view.time.text) == time_bytes(clock.hours, clock.minutes),
        clock.hours < 100 && clock.minutes < 100 ==> text_bytes(view.time.text) == seq![
            (48 + clock.hours / 10) as u8,
            (48 + clock.hours % 10) as u8,
            58u8,
            (48 + clock.minutes / 10) as u8,
            (48 + clock.minutes % 10) as u8,
        ],
{
    if clock.hours < 100 && clock.minutes < 100 {
        lemma_time_bytes(clock.hours, clock.minutes);
    }
}

/// Where the labels stand and what colour they have, whatever was measured: red
/// temperature, blue-green humidity, white time, on black.
pub proof fn lemma_weather_layout(view: WeatherView, reading: Option<Reading>, clock: Clock)
    requires
        view.shows(reading, clock),
    ensures
        view.background == (Color { r: 0, g: 0, b: 0 }),
        view.temperature.icon@ == icon_pixels(THERMOMETER@, 6, 10, 144),
        view.temperature.x == 24 && view.temperature.y == 4,
        view.temperature.color == (Color { r: 31, g: 0, b: 0 }),
        view.humidity.icon@ == icon_pixels(DROP@, 130, 10, 144),
        view.humidity.x == 148 && view.humidity.y == 4,
        view.humidity.color == (Color { r: 0, g: 32, b: 31 }),
        view.time.icon@ == icon_pixels(CLOCK@, 50, 75, 144),
        view.time.x == 68 && view.time.y == 68,
        view.time.color == (Color { r: 31, g: 63, b: 31 }),
{
}

// The course of the program.

/// What a look at the button shows: new bars under the title where a sort begins,
/// a comparison where one is made, with the end of the sort where it is the last,
/// and nothing anywhere else or while the button is down.
pub proof fn lemma_button_shows(s: ControllerState, low: bool, show: Show)
    requires
        s.button_shows(low, show),
    ensures
        low ==> show is Nothing,
        show is Nothing <==> low || !(s.stage is Settling || s.stage is Sorting),
        show matches Show::Bars(view) ==> {
            &&& s.stage is Settling
            &&& view.background == (Color { r: 0, g: 0, b: 0 })
            &&& view.title.text@ == "Quick Sort"@
            &&& view.title.x == 2 && view.title.y == 2
            &&& view.title.color == (Color { r: 31, g: 63, b: 31 })
            &&& view.bars@ == all_bars_effects(heights_from(s.seed))
        },
        !(show is Weather),
        show matches Show::Comparison(progress) ==> {
            &&& s.stage matches StageState::Sorting(sort) && {
                &&& sort.stepped().span is Some
                &&& sort.exchange_shown() is Some == progress.exchange is Some
                &&& sort.pivot_shown() is Some == progress.pivot is Some
                &&& progress.exchange matches Some(e) ==> Some(e@) == sort.exchange_shown()
                &&& progress.pivot matches Some(e) ==> Some(e@) == sort.pivot_shown()
            }
        },
        show matches Show::Finish(progress, end) ==> {
            &&& s.stage matches StageState::Sorting(sort) && {
                &&& sort.stepped().span is None
                &&& sort.exchange_shown() is Some == progress.exchange is Some
                &&& sort.pivot_shown() is Some == progress.pivot is Some
                &&& progress.exchange matches Some(e) ==> Some(e@) == sort.exchange_shown()
                &&& progress.pivot matches Some(e) ==> Some(e@) == sort.pivot_shown()
                &&& end@ == finale_effects(sort.stepped().arr)
            }
        },
{
}

/// On the weather screen, the button is looked at forty times, 50 ms apart. The round
/// ends with the last look or with the release of the button, which is looked at
/// every 10 ms while it is held.
pub proof fn lemma_weather_polling(s: ControllerState, polls: int)
    requires
        s.stage == StageState::Idle(polls),
        0 <= polls < 40,
    ensures
        s.screen() == Screen::Weather,
        s.after_button(true) == (ControllerState { stage: StageState::Leaving, ..s }),
        s.query_after_button(true) == (Query::Button { after_ms: 0 }),
        polls < 39 ==> s.after_button(false) == (ControllerState {
            stage: StageState::Idle(polls + 1),
            ..s
        }) && s.query_after_button(false) == (Query::Button { after_ms: 50 }),
        polls == 39 ==> s.after_button(false) == (ControllerState {
            clock: s.clock.round_later(),
            stage: StageState::Sensing,
            ..s
        }) && s.query_after_button(false) == (Query::Sensor { after_ms: 0 }),
{
}

/// A button that is held keeps the program where it is, with a look every 10 ms; its
/// release leads from the weather screen to the sorting screen, and after an
/// interruption back to the weather screen, 300 ms later.
pub proof fn lemma_held_button(s: ControllerState)
    ensures
        s.stage is Leaving || s.stage is Settling || s.stage is Aborting ==> s.after_button(true)
            == s && s.query_after_button(true) == (Query::Button { after_ms: 10 }),
        s.stage is Leaving ==> {
            &&& s.screen() == Screen::Weather
            &&& s.after_button(false) == (ControllerState {
                clock: s.clock.round_later(),
                stage: StageState::Settling,
                ..s
            })
            &&& s.query_after_button(false) == (Query::Button { after_ms: 0 })
        },
        s.stage is Aborting ==> {
            &&& s.screen() == Screen::Sort
            &&& s.after_button(false) == (ControllerState { stage: StageState::Sensing, ..s })
            &&& s.query_after_button(false) == (Query::Sensor { after_ms: 300 })
        },
{
}

/// On the sorting screen, a look at a button that is up begins a sort with twenty new
/// bars, or makes one comparison, and the next look follows at once. A sort whose last
/// comparison was made gives way to the next; a press during a sort interrupts it.
pub proof fn lemma_sorting_polling(s: ControllerState)
    ensures
        s.stage is Settling ==> {
            &&& s.screen() == Screen::Sort
            &&& s.after_button(false) == (ControllerState {
                clock: s.clock,
                seed: lcg_after(s.seed, 20),
                stage: StageState::Sorting(begun(heights_from(s.seed))),
            })
            &&& s.query_after_button(false) == (Query::Button { after_ms: 0 })
        },
        s.stage matches StageState::Sorting(sort) ==> {
            &&& s.screen() == Screen::Sort
            &&& s.after_button(true) == (ControllerState { stage: StageState::Aborting, ..s })
            &&& s.after_button(false).clock == s.clock && s.after_button(false).seed == s.seed
            &&& sort.stepped().span is Some ==> s.after_button(false).stage
                == StageState::Sorting(sort.stepped())
            &&& sort.stepped().span is None ==> s.after_button(false).stage is Settling
            &&& s.query_after_button(true) == (Query::Button { after_ms: 0 })
            &&& s.query_after_button(false) == (Query::Button { after_ms: 0 })
        },
{
}

/// The program begins on the weather screen at half past two in the afternoon, with
/// a measurement, and with its generator in the state 12345.
pub proof fn lemma_program_begins()
    ensures
        program_start().clock == (Clock { hours: 14, minutes: 30, seconds: 0 }),
        program_start().seed == 12345,
        program_start().stage is Sensing,
        program_start().screen() == Screen::Weather,
{
}

/// The program waits for a measurement in one stage only. A measurement begins a
/// round, with the first look at the button 50 ms later, and changes nothing else.
pub proof fn lemma_measurement_begins_round(s: ControllerState)
    ensures
        s.awaits_sensor() <==> s.stage is Sensing,
        s.stage is Sensing ==> s.screen() == Screen::Weather,
        s.after_reading() == (ControllerState { stage: StageState::Idle(0), ..s }),
        IDLE_PAUSE == 50,
{
}

} // verus!
