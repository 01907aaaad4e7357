//! The bars of the sorting screen: where they stand and how they are painted.

use vstd::prelude::*;

use crate::color::{value_color, Color};
#[allow(unused_imports)]
use crate::color::{bar_color, black_color, rgb565, white_color};

verus! {

/// The number of bars.
pub const NUM_BARS: usize = 20;

/// The width of a bar, in pixels.
pub const BAR_WIDTH: usize = 10;

/// The empty columns between two bars.
pub const BAR_GAP: usize = 2;

/// The row just below every bar.
pub const BAR_BOTTOM: i32 = 134;

/// The height of the tallest bar, in pixels.
pub const BAR_MAX_H: i32 = 95;

/// The topmost row of the slots in which the bars stand.
pub const BAR_TOP: i32 = BAR_BOTTOM - BAR_MAX_H;

/// The effects that paint one bar.
pub const BAR_EFFECTS: usize = 2;

/// The effects that paint all bars.
pub const ALL_BARS_EFFECTS: usize = 40;

/// The effects that animate an exchange of two bars.
pub const EXCHANGE_EFFECTS: usize = 10;

/// The effects that close a finished sort.
pub const FINALE_EFFECTS: usize = 102;

/// A rectangle filled with one colour.
#[derive(Clone, Copy, Debug, PartialEq, Eq, Structural)]
pub struct Fill {
    pub x: i32,
    pub y: i32,
    pub width: u32,
    pub height: u32,
    pub color: Color,
}

/// One thing to do on the panel.
#[derive(Clone, Copy, Debug, PartialEq, Eq, Structural)]
pub enum Effect {
    /// Paint a rectangle.
    Fill(Fill),
    /// Let so many milliseconds pass.
    Pause(u32),
}

/// The leftmost column of slot `index`.
pub open spec fn slot_left(index: int) -> int {
    index * (BAR_WIDTH + BAR_GAP)
}

/// The background of slot `index`.
pub open spec fn slot_fill(index: int) -> Fill {
    Fill {
        x: slot_left(index) as i32,
        y: BAR_TOP,
        width: BAR_WIDTH as u32,
        height: BAR_MAX_H as u32,
        color: black_color(),
    }
}

/// A bar of the given height that stands in slot `index`.
pub open spec fn bar_fill(index: int, height: u8, color: Color) -> Fill {
    Fill {
        x: slot_left(index) as i32,
        y: (BAR_BOTTOM - height) as i32,
        width: BAR_WIDTH as u32,
        height: height as u32,
        color,
    }
}

/// Painting one bar: its slot is cleared, then the bar is filled.
pub open spec fn painted_bar(index: int, height: u8, color: Color) -> Seq<Effect> {
    seq![Effect::Fill(slot_fill(index)), Effect::Fill(bar_fill(index, height, color))]
}

/// The colour of a bar: white while it is highlighted, by its height otherwise.
pub open spec fn shade(height: u8, active: bool) -> Color {
    if active {
        white_color()
    } else {
        bar_color(height)
    }
}

/// Painting bar `index` of `arr`.
pub open spec fn bar_effects(arr: Seq<u8>, index: int, active: bool) -> Seq<Effect> {
    painted_bar(index, arr[index], shade(arr[index], active))
}

/// Painting every bar of `arr` from left to right, none highlighted.
pub open spec fn all_bars_effects(arr: Seq<u8>) -> Seq<Effect> {
    Seq::new(ALL_BARS_EFFECTS as nat, |n: int| bar_effects(arr, n / 2, false)[n % 2])
}

/// `arr` with the entries `i` and `j` exchanged.
pub open spec fn exchanged(arr: Seq<u8>, i: int, j: int) -> Seq<u8> {
    arr.update(i, arr[j]).update(j, arr[i])
}

/// The animation of an exchange of bars `i` and `j`: bar `j` lights up at its old
/// height; then `j` takes its new height while `i` lights up at its own; then `i`
/// goes back to its colour. `ms` pass between the stages.
pub open spec fn exchange_effects(arr: Seq<u8>, i: int, j: int, ms: u32) -> Seq<Effect> {
    let after = exchanged(arr, i, j);
    bar_effects(arr, j, true) + seq![Effect::Pause(ms)] + bar_effects(after, j, false)
        + bar_effects(after, i, true) + seq![Effect::Pause(ms)] + bar_effects(after, i, false)
}

/// The colour in which a finished sort is shown.
pub open spec fn sorted_color() -> Color {
    rgb565(0, 63, 0)
}

/// Painting the bars green from left to right, 80 ms apart.
pub open spec fn sweep_effects(arr: Seq<u8>) -> Seq<Effect> {
    Seq::new(
        60,
        |n: int|
            if n % 3 == 2 {
                Effect::Pause(80)
            } else {
                painted_bar(n / 3, arr[n / 3], sorted_color())[n % 3]
            },
    )
}

/// How a finished sort is shown: all bars, a pause, the green sweep, a long pause.
pub open spec fn finale_effects(arr: Seq<u8>) -> Seq<Effect> {
    all_bars_effects(arr) + seq![Effect::Pause(500)] + sweep_effects(arr) + seq![
        Effect::Pause(3000),
    ]
}

/// Paints bar `index` of `arr` in a given colour.
fn paint_bar(arr: &[u8; NUM_BARS], index: usize, color: Color) -> (effects: [Effect; BAR_EFFECTS])
    requires
        index < NUM_BARS,
    ensures
        effects@ == painted_bar(index as int, arr@[index as int], color),
{
    let x: i32 = (index * (BAR_WIDTH + BAR_GAP)) as i32;
    let h: i32 = arr[index] as i32;
    let slot = Fill {
        x,
        y: BAR_TOP,
        width: BAR_WIDTH as u32,
        height: BAR_MAX_H as u32,
        color: Color::black(),
    };
    let bar = Fill { x, y: BAR_BOTTOM - h, width: BAR_WIDTH as u32, height: h as u32, color };
    let effects: [Effect; BAR_EFFECTS] = [Effect::Fill(slot), Effect::Fill(bar)];
    assert(effects@ =~= painted_bar(index as int, arr@[index as int], color));
    effects
}

/// Paints one bar: clears its slot, then fills the bar, white if it is active and
/// in the colour of its height otherwise.
pub fn draw_bar(arr: &[u8; NUM_BARS], index: usize, active: bool) -> (effects: [Effect;
    BAR_EFFECTS])
    requires
        index < NUM_BARS,
    ensures
        effects@ == bar_effects(arr@, index as int, active),
{
    let color = if active {
        Color::white()
    } else {
        value_color(arr[index])
    };
    paint_bar(arr, index, color)
}

/// Paints every bar.
pub fn draw_all_bars(arr: &[u8; NUM_BARS]) -> (effects: [Effect; ALL_BARS_EFFECTS])
    ensures
        effects@ == all_bars_effects(arr@),
{
    let mut effects: [Effect; ALL_BARS_EFFECTS] = [Effect::Pause(0); ALL_BARS_EFFECTS];
    for i in 0..NUM_BARS
        invariant
            forall|n: int| 0 <= n < 2 * i ==> #[trigger] effects@[n] == all_bars_effects(arr@)[n],
    {
        let bar = draw_bar(arr, i, false);
        effects[2 * i] = bar[0];
        effects[2 * i + 1] = bar[1];
    }
    assert(effects@ =~= all_bars_effects(arr@));
    effects
}

/// Exchanges two bars and returns the animation of it.
pub fn exchange_bars(arr: &mut [u8; NUM_BARS], i: usize, j: usize, ms: u32) -> (effects: [Effect;
    EXCHANGE_EFFECTS])
    requires
        i < NUM_BARS,
        j < NUM_BARS,
    ensures
        final(arr)@ == exchanged(old(arr)@, i as int, j as int),
        effects@ == exchange_effects(old(arr)@, i as int, j as int, ms),
{
    let lit_source = draw_bar(arr, j, true);
    let source: u8 = arr[j];
    arr[j] = arr[i];
    arr[i] = source;
    assert(arr@ =~= exchanged(old(arr)@, i as int, j as int));
    let new_source = draw_bar(arr, j, false);
    let lit_target = draw_bar(arr, i, true);
    let new_target = draw_bar(arr, i, false);
    let pause = Effect::Pause(ms);
    let effects: [Effect; EXCHANGE_EFFECTS] = [
        lit_source[0],
        lit_source[1],
        pause,
        new_source[0],
        new_source[1],
        lit_target[0],
        lit_target[1],
        pause,
        new_target[0],
        new_target[1],
    ];
    assert(effects@ =~= exchange_effects(old(arr)@, i as int, j as int, ms));
    effects
}

/// Shows a finished sort: every bar once more, then each in green.
pub fn finale(arr: &[u8; NUM_BARS]) -> (effects: [Effect; FINALE_EFFECTS])
    ensures
        effects@ == finale_effects(arr@),
{
    let mut effects: [Effect; FINALE_EFFECTS] = [Effect::Pause(0); FINALE_EFFECTS];
    let all = draw_all_bars(arr);
    for n in 0..ALL_BARS_EFFECTS
        invariant
            all@ == all_bars_effects(arr@),
            forall|m: int| 0 <= m < n ==> #[trigger] effects@[m] == finale_effects(arr@)[m],
    {
        effects[n] = all[n];
    }
    effects[40] = Effect::Pause(500);
    let green = Color::new(0, 63, 0);
    for k in 0..NUM_BARS
        invariant
            green == sorted_color(),
            forall|m: int|
                0 <= m < 41 + 3 * k ==> #[trigger] effects@[m] == finale_effects(arr@)[m],
    {
        let bar = paint_bar(arr, k, green);
        effects[41 + 3 * k] = bar[0];
        effects[41 + 3 * k + 1] = bar[1];
        effects[41 + 3 * k + 2] = Effect::Pause(80);
    }
    effects[101] = Effect::Pause(3000);
    assert(effects@ =~= finale_effects(arr@));
    effects
}

} // verus!
