//! What the panel shows: a picture as a function from pixels to colours, what
//! effects do to it, and what holds of the bars painted on it.

use vstd::prelude::*;

use crate::bars::{Effect, Fill, BAR_BOTTOM, BAR_MAX_H, BAR_TOP, BAR_WIDTH, NUM_BARS};
#[allow(unused_imports)]
use crate::bars::{
    all_bars_effects, bar_effects, exchange_effects, exchanged, finale_effects, painted_bar, shade,
    slot_left, sorted_color, sweep_effects,
};
use crate::color::Color;
#[allow(unused_imports)]
use crate::color::{bar_color, black_color};
#[allow(unused_imports)]
use crate::rng::heights_fit;

verus! {

/// The width of the panel, in pixels.
pub const PANEL_WIDTH: i32 = 240;

/// The height of the panel, in pixels.
pub const PANEL_HEIGHT: i32 = 135;

/// The pixel in column `x` and row `y` belongs to the rectangle.
pub open spec fn covers(fill: Fill, x: int, y: int) -> bool {
    fill.x <= x < fill.x + fill.width && fill.y <= y < fill.y + fill.height
}

/// The picture after one effect.
pub open spec fn painted(picture: spec_fn(int, int) -> Color, effect: Effect) -> spec_fn(
    int,
    int,
) -> Color {
    match effect {
        Effect::Fill(fill) => |x: int, y: int|
            if covers(fill, x, y) {
                fill.color
            } else {
                picture(x, y)
            },
        Effect::Pause(ms) => picture,
    }
}

/// The picture after a sequence of effects.
pub open spec fn played(picture: spec_fn(int, int) -> Color, effects: Seq<Effect>) -> spec_fn(
    int,
    int,
) -> Color
    decreases effects.len(),
{
    if effects.len() == 0 {
        picture
    } else {
        painted(played(picture, effects.drop_last()), effects.last())
    }
}

/// The pixel in column `x` and row `y` belongs to slot `k`.
pub open spec fn in_slot(k: int, x: int, y: int) -> bool {
    slot_left(k) <= x < slot_left(k) + BAR_WIDTH && BAR_TOP <= y < BAR_BOTTOM
}

/// Slot `k` shows a bar of the given height and colour on a black background, and
/// nothing else.
pub open spec fn shows_bar(
    picture: spec_fn(int, int) -> Color,
    k: int,
    height: u8,
    color: Color,
) -> bool {
    forall|x: int, y: int|
        in_slot(k, x, y) ==> #[trigger] picture(x, y) == if y >= BAR_BOTTOM - height {
            color
        } else {
            black_color()
        }
}

/// Every slot shows its bar of `arr` in the colour of its height.
pub open spec fn shows(picture: spec_fn(int, int) -> Color, arr: Seq<u8>) -> bool {
    forall|k: int|
        0 <= k < NUM_BARS ==> #[trigger] shows_bar(picture, k, arr[k], bar_color(arr[k]))
}

/// Every slot shows its bar of `arr` in green.
pub open spec fn shows_sorted(picture: spec_fn(int, int) -> Color, arr: Seq<u8>) -> bool {
    forall|k: int| 0 <= k < NUM_BARS ==> #[trigger] shows_bar(picture, k, arr[k], sorted_color())
}

/// The two pictures agree outside slot `k`.
pub open spec fn same_but_slot(
    before: spec_fn(int, int) -> Color,
    after: spec_fn(int, int) -> Color,
    k: int,
) -> bool {
    forall|x: int, y: int| !in_slot(k, x, y) ==> #[trigger] after(x, y) == before(x, y)
}

/// The two pictures agree outside all slots.
pub open spec fn same_but_slots(
    before: spec_fn(int, int) -> Color,
    after: spec_fn(int, int) -> Color,
) -> bool {
    forall|x: int, y: int|
        (forall|k: int| 0 <= k < NUM_BARS ==> !in_slot(k, x, y)) ==> #[trigger] after(x, y)
            == before(x, y)
}

/// Every slot lies on the panel.
pub proof fn lemma_slots_on_panel(k: int, x: int, y: int)
    requires
        0 <= k < NUM_BARS,
        in_slot(k, x, y),
    ensures
        0 <= x < PANEL_WIDTH,
        0 <= y < PANEL_HEIGHT,
{
}

/// No pixel belongs to two slots.
pub proof fn lemma_slots_disjoint(k: int, m: int, x: int, y: int)
    requires
        in_slot(k, x, y),
        in_slot(m, x, y),
    ensures
        k == m,
{
}

/// Effects played one after the other.
pub proof fn lemma_played_concat(
    picture: spec_fn(int, int) -> Color,
    first: Seq<Effect>,
    second: Seq<Effect>,
)
    ensures
        played(picture, first + second) == played(played(picture, first), second),
    decreases second.len(),
{
    if second.len() == 0 {
        assert(first + second =~= first);
    } else {
        lemma_played_concat(picture, first, second.drop_last());
        assert((first + second).drop_last() =~= first + second.drop_last());
        assert((first + second).last() == second.last());
    }
}

/// A pause changes nothing on the panel.
proof fn lemma_played_pause(picture: spec_fn(int, int) -> Color, ms: u32)
    ensures
        played(picture, seq![Effect::Pause(ms)]) == picture,
{
    let effects = seq![Effect::Pause(ms)];
    assert(effects.drop_last() =~= Seq::<Effect>::empty());
    assert(played(picture, effects.drop_last()) == picture);
}

/// Painting a bar that is no higher than its slot leaves exactly that bar in the
/// slot, whatever stood there before, and touches no other pixel.
pub proof fn lemma_painted_bar(
    picture: spec_fn(int, int) -> Color,
    k: int,
    height: u8,
    color: Color,
)
    requires
        0 <= k < NUM_BARS,
        height <= BAR_MAX_H,
    ensures
        shows_bar(played(picture, painted_bar(k, height, color)), k, height, color),
        same_but_slot(picture, played(picture, painted_bar(k, height, color)), k),
{
    let effects = painted_bar(k, height, color);
    assert(effects.drop_last() =~= seq![effects[0]]);
    assert(effects.drop_last().drop_last() =~= Seq::<Effect>::empty());
    reveal_with_fuel(played, 3);
}

/// A bar that is painted over only outside its slot keeps its picture.
proof fn lemma_other_slot_kept(
    before: spec_fn(int, int) -> Color,
    after: spec_fn(int, int) -> Color,
    k: int,
    m: int,
    height: u8,
    color: Color,
)
    requires
        same_but_slot(before, after, k),
        k != m,
        shows_bar(before, m, height, color),
    ensures
        shows_bar(after, m, height, color),
{
    assert forall|x: int, y: int| in_slot(m, x, y) implies #[trigger] after(x, y) == if y
        >= BAR_BOTTOM - height {
        color
    } else {
        black_color()
    } by {
        assert(!in_slot(k, x, y));
        assert(before(x, y) == before(x, y));
    }
}

/// Painting all bars shows exactly them, whatever the panel showed before, and
/// touches no pixel outside the slots.
pub proof fn lemma_all_bars_shown(picture: spec_fn(int, int) -> Color, arr: Seq<u8>)
    requires
        heights_fit(arr),
    ensures
        shows(played(picture, all_bars_effects(arr)), arr),
        same_but_slots(picture, played(picture, all_bars_effects(arr))),
{
    lemma_bars_shown_up_to(picture, arr, NUM_BARS as int);
    assert(all_bars_effects(arr).take(40) =~= all_bars_effects(arr));
}

proof fn lemma_bars_shown_up_to(picture: spec_fn(int, int) -> Color, arr: Seq<u8>, n: int)
    requires
        heights_fit(arr),
        0 <= n <= NUM_BARS,
    ensures
        ({
            let after = played(picture, all_bars_effects(arr).take(2 * n));
            &&& forall|k: int|
                0 <= k < n ==> #[trigger] shows_bar(after, k, arr[k], bar_color(arr[k]))
            &&& same_but_slots(picture, after)
        }),
    decreases n,
{
    let all = all_bars_effects(arr);
    if n == 0 {
        assert(all.take(0) =~= Seq::<Effect>::empty());
    } else {
        let k = n - 1;
        lemma_bars_shown_up_to(picture, arr, k);
        let mid = played(picture, all.take(2 * k));
        let bar = painted_bar(k, arr[k], bar_color(arr[k]));
        assert(all.take(2 * n) =~= all.take(2 * k) + bar);
        lemma_played_concat(picture, all.take(2 * k), bar);
        lemma_painted_bar(mid, k, arr[k], bar_color(arr[k]));
        let after = played(mid, bar);
        assert forall|m: int| 0 <= m < n implies #[trigger] shows_bar(
            after,
            m,
            arr[m],
            bar_color(arr[m]),
        ) by {
            if m < k {
                assert(shows_bar(mid, m, arr[m], bar_color(arr[m])));
                lemma_other_slot_kept(mid, after, k, m, arr[m], bar_color(arr[m]));
            }
        }
        assert forall|x: int, y: int|
            (forall|m: int| 0 <= m < NUM_BARS ==> !in_slot(m, x, y)) implies #[trigger] after(x, y)
            == picture(x, y) by {
            assert(!in_slot(k, x, y));
            assert(mid(x, y) == picture(x, y));
        }
    }
}

/// The animation of an exchange leaves the panel showing the exchanged bars, if it
/// showed the bars before, and touches no pixel outside the slots.
pub proof fn lemma_exchange_shown(
    picture: spec_fn(int, int) -> Color,
    arr: Seq<u8>,
    i: int,
    j: int,
    ms: u32,
)
    requires
        heights_fit(arr),
        0 <= i < NUM_BARS,
        0 <= j < NUM_BARS,
        shows(picture, arr),
    ensures
        shows(played(picture, exchange_effects(arr, i, j, ms)), exchanged(arr, i, j)),
        same_but_slots(picture, played(picture, exchange_effects(arr, i, j, ms))),
{
    let after = exchanged(arr, i, j);
    let e1 = bar_effects(arr, j, true);
    let pause = seq![Effect::Pause(ms)];
    let e2 = bar_effects(after, j, false);
    let e3 = bar_effects(after, i, true);
    let e4 = bar_effects(after, i, false);
    let p1 = played(picture, e1);
    let p2 = played(p1, e2);
    let p3 = played(p2, e3);
    let p4 = played(p3, e4);
    lemma_played_concat(picture, e1, pause);
    lemma_played_pause(p1, ms);
    lemma_played_concat(picture, e1 + pause, e2);
    lemma_played_concat(picture, e1 + pause + e2, e3);
    lemma_played_concat(picture, e1 + pause + e2 + e3, pause);
    lemma_played_pause(p3, ms);
    lemma_played_concat(picture, e1 + pause + e2 + e3 + pause, e4);
    assert(played(picture, exchange_effects(arr, i, j, ms)) == p4);
    lemma_painted_bar(picture, j, arr[j], shade(arr[j], true));
    lemma_painted_bar(p1, j, after[j], shade(after[j], false));
    lemma_painted_bar(p2, i, after[i], shade(after[i], true));
    lemma_painted_bar(p3, i, after[i], shade(after[i], false));
    assert forall|k: int| 0 <= k < NUM_BARS implies #[trigger] shows_bar(
        p4,
        k,
        after[k],
        bar_color(after[k]),
    ) by {
        let c = bar_color(after[k]);
        if k == i {
        } else if k == j {
            lemma_other_slot_kept(p2, p3, i, k, after[k], c);
            lemma_other_slot_kept(p3, p4, i, k, after[k], c);
        } else {
            assert(shows_bar(picture, k, arr[k], bar_color(arr[k])));
            lemma_other_slot_kept(picture, p1, j, k, after[k], c);
            lemma_other_slot_kept(p1, p2, j, k, after[k], c);
            lemma_other_slot_kept(p2, p3, i, k, after[k], c);
            lemma_other_slot_kept(p3, p4, i, k, after[k], c);
        }
    }
    assert forall|x: int, y: int|
        (forall|m: int| 0 <= m < NUM_BARS ==> !in_slot(m, x, y)) implies #[trigger] p4(x, y)
        == picture(x, y) by {
        assert(!in_slot(i, x, y) && !in_slot(j, x, y));
        assert(p1(x, y) == picture(x, y));
        assert(p2(x, y) == p1(x, y));
        assert(p3(x, y) == p2(x, y));
    }
}

/// At the end of a finished sort every bar is green, whatever the panel showed
/// before.
pub proof fn lemma_finale_shown(picture: spec_fn(int, int) -> Color, arr: Seq<u8>)
    requires
        heights_fit(arr),
    ensures
        shows_sorted(played(picture, finale_effects(arr)), arr),
        same_but_slots(picture, played(picture, finale_effects(arr))),
{
    let e1 = all_bars_effects(arr);
    let short = seq![Effect::Pause(500)];
    let long = seq![Effect::Pause(3000)];
    let e2 = sweep_effects(arr);
    let p1 = played(picture, e1);
    let p2 = played(p1, e2);
    lemma_played_concat(picture, e1, short);
    lemma_played_pause(p1, 500);
    lemma_played_concat(picture, e1 + short, e2);
    lemma_played_concat(picture, e1 + short + e2, long);
    lemma_played_pause(p2, 3000);
    lemma_all_bars_shown(picture, arr);
    lemma_sweep_shown_up_to(p1, arr, NUM_BARS as int);
    assert(e2.take(60) =~= e2);
    assert forall|x: int, y: int|
        (forall|m: int| 0 <= m < NUM_BARS ==> !in_slot(m, x, y)) implies #[trigger] p2(x, y)
        == picture(x, y) by {
        assert(p1(x, y) == picture(x, y));
    }
}

proof fn lemma_sweep_shown_up_to(picture: spec_fn(int, int) -> Color, arr: Seq<u8>, n: int)
    requires
        heights_fit(arr),
        0 <= n <= NUM_BARS,
    ensures
        ({
            let after = played(picture, sweep_effects(arr).take(3 * n));
            &&& forall|k: int| 0 <= k < n ==> #[trigger] shows_bar(after, k, arr[k], sorted_color())
            &&& same_but_slots(picture, after)
        }),
    decreases n,
{
    let all = sweep_effects(arr);
    if n == 0 {
        assert(all.take(0) =~= Seq::<Effect>::empty());
    } else {
        let k = n - 1;
        lemma_sweep_shown_up_to(picture, arr, k);
        let mid = played(picture, all.take(3 * k));
        let bar = painted_bar(k, arr[k], sorted_color());
        let pause = seq![Effect::Pause(80)];
        assert(all.take(3 * n) =~= all.take(3 * k) + bar + pause);
        let after = played(mid, bar);
        lemma_played_concat(picture, all.take(3 * k), bar);
        lemma_played_concat(picture, all.take(3 * k) + bar, pause);
        lemma_played_pause(after, 80);
        lemma_painted_bar(mid, k, arr[k], sorted_color());
        assert forall|m: int| 0 <= m < n implies #[trigger] shows_bar(
            after,
            m,
            arr[m],
            sorted_color(),
        ) by {
            if m < k {
                assert(shows_bar(mid, m, arr[m], sorted_color()));
                lemma_other_slot_kept(mid, after, k, m, arr[m], sorted_color());
            }
        }
        assert forall|x: int, y: int|
            (forall|m: int| 0 <= m < NUM_BARS ==> !in_slot(m, x, y)) implies #[trigger] after(x, y)
            == picture(x, y) by {
            assert(!in_slot(k, x, y));
            assert(mid(x, y) == picture(x, y));
        }
    }
}

} // verus!
