//! What holds of the program as it runs, whatever the sensor and the button report.

use vstd::prelude::*;

use crate::bars::NUM_BARS;
#[allow(unused_imports)]
use crate::bars::{all_bars_effects, finale_effects};
#[allow(unused_imports)]
use crate::canvas::{
    lemma_all_bars_shown, lemma_finale_shown, lemma_played_concat, played, shows, shows_sorted,
};
use crate::clock::{Clock, ROUND_SECONDS};
#[allow(unused_imports)]
use crate::clock::{lemma_rounds_add_up, rounds_later};
use crate::color::Color;
use crate::controller::{
    ControllerState, Query, Screen, StageState, COOLDOWN, FIRST_SEED, IDLE_PAUSE, IDLE_POLLS,
    RELEASE_PAUSE,
};
#[allow(unused_imports)]
use crate::rng::{heights_from, lcg_after, lemma_heights_fit};
use crate::sort_model::SortState;
#[allow(unused_imports)]
use crate::sort_model::{
    begun, lemma_begun_wf, lemma_done_sorted, lemma_sort_after, lemma_sort_finishes,
    lemma_stepped_fits, lemma_stepped_permutes, lemma_stepped_shown, lemma_stepped_wf, sort_after,
    sorted,
};

verus! {

/// A report that the program goes on with.
pub enum Input {
    /// A measurement, successful or not.
    Reading,
    /// A look at the button, which is down if it reads low.
    Button(bool),
}

/// The state in which the program starts.
pub open spec fn program_start() -> ControllerState {
    ControllerState {
        clock: Clock { hours: 14, minutes: 30, seconds: 0 },
        seed: FIRST_SEED,
        stage: StageState::Sensing,
    }
}

/// The state after a report. Only what the program waits for is reported to it.
pub open spec fn after_input(s: ControllerState, input: Input) -> ControllerState {
    match input {
        Input::Reading if s.awaits_sensor() => s.after_reading(),
        Input::Button(low) if !s.awaits_sensor() => s.after_button(low),
        _ => s,
    }
}

/// The state after a sequence of reports.
pub open spec fn reached(inputs: Seq<Input>) -> ControllerState
    decreases inputs.len(),
{
    if inputs.len() == 0 {
        program_start()
    } else {
        after_input(reached(inputs.drop_last()), inputs.last())
    }
}

/// The report ends a round of the weather screen: the last look at the button, or
/// its release.
pub open spec fn ends_round(s: ControllerState, input: Input) -> bool {
    input == Input::Button(false) && match s.stage {
        StageState::Idle(polls) => polls + 1 >= IDLE_POLLS,
        StageState::Leaving => true,
        _ => false,
    }
}

/// The report begins a sort.
pub open spec fn begins_sort(s: ControllerState, input: Input) -> bool {
    input == Input::Button(false) && s.stage is Settling
}

/// The rounds of the weather screen that have ended.
pub open spec fn rounds_ended(inputs: Seq<Input>) -> nat
    decreases inputs.len(),
{
    if inputs.len() == 0 {
        0
    } else {
        let before = inputs.drop_last();
        if ends_round(reached(before), inputs.last()) {
            rounds_ended(before) + 1
        } else {
            rounds_ended(before)
        }
    }
}

/// The sorts that have begun.
pub open spec fn sorts_begun(inputs: Seq<Input>) -> nat
    decreases inputs.len(),
{
    if inputs.len() == 0 {
        0
    } else {
        let before = inputs.drop_last();
        if begins_sort(reached(before), inputs.last()) {
            sorts_begun(before) + 1
        } else {
            sorts_begun(before)
        }
    }
}

/// The bars of the sort that begins as number `n`, counted from zero.
pub open spec fn bars_of_sort(n: int) -> Seq<u8> {
    heights_from(lcg_after(FIRST_SEED, (NUM_BARS * n) as nat))
}

/// The state after `n` looks at a button that is up.
pub open spec fn unpressed(s: ControllerState, n: nat) -> ControllerState
    decreases n,
{
    if n == 0 {
        s
    } else {
        unpressed(s, (n - 1) as nat).after_button(false)
    }
}

/// The state after `n` looks at a button that is down.
pub open spec fn pressed(s: ControllerState, n: nat) -> ControllerState
    decreases n,
{
    if n == 0 {
        s
    } else {
        pressed(s, (n - 1) as nat).after_button(true)
    }
}

/// The generator's steps add up.
pub proof fn lemma_lcg_steps_add(seed: u32, a: nat, b: nat)
    ensures
        lcg_after(lcg_after(seed, a), b) == lcg_after(seed, a + b),
    decreases b,
{
    if b > 0 {
        lemma_lcg_steps_add(seed, a, (b - 1) as nat);
    }
}

/// Every report leaves the program in one of its states.
pub proof fn lemma_input_keeps_wf(s: ControllerState, input: Input)
    requires
        s.wf(),
    ensures
        after_input(s, input).wf(),
{
    lemma_rounds_add_up(s.clock, 1);
    assert(rounds_later(s.clock, 1) == s.clock.round_later()) by {
        reveal_with_fuel(rounds_later, 2);
    }
    lemma_heights_fit(s.seed);
    lemma_begun_wf(heights_from(s.seed));
    if let StageState::Sorting(sort) = s.stage {
        lemma_stepped_wf(sort);
        lemma_stepped_fits(sort);
    }
}

/// Whatever is reported, and in whatever order: the program is in one of its
/// states; the clock has moved by the rounds of the weather screen that have ended,
/// and by nothing else; the generator has moved by the bars of the sorts that have
/// begun; and the bars being sorted are those of the latest sort, rearranged.
pub proof fn lemma_course(inputs: Seq<Input>)
    ensures
        reached(inputs).wf(),
        reached(inputs).clock == rounds_later(program_start().clock, rounds_ended(inputs)),
        reached(inputs).seed == lcg_after(FIRST_SEED, NUM_BARS as nat * sorts_begun(inputs)),
        reached(inputs).stage matches StageState::Sorting(sort) ==> {
            &&& sorts_begun(inputs) > 0
            &&& sort.arr.to_multiset() == bars_of_sort(sorts_begun(inputs) - 1).to_multiset()
        },
    decreases inputs.len(),
{
    if inputs.len() > 0 {
        let before = inputs.drop_last();
        let s = reached(before);
        let n = sorts_begun(before);
        lemma_course(before);
        lemma_input_keeps_wf(s, inputs.last());
        if begins_sort(s, inputs.last()) {
            lemma_lcg_steps_add(FIRST_SEED, NUM_BARS as nat * n, NUM_BARS as nat);
            assert(NUM_BARS as nat * n + NUM_BARS as nat == NUM_BARS as nat * (n + 1));
            lemma_begun_wf(heights_from(s.seed));
        }
        if let StageState::Sorting(sort) = s.stage {
            lemma_stepped_permutes(sort);
        }
    }
}

/// The clock stands still on the sorting screen.
pub proof fn lemma_clock_waits(s: ControllerState, low: bool)
    requires
        s.screen() == Screen::Sort,
    ensures
        s.after_button(low).clock == s.clock,
{
}

/// A round in which nobody presses the button: it is looked at 40 times, each time
/// after 50 ms, so that the round takes as long as the clock then moves, and a
/// measurement follows.
pub proof fn lemma_quiet_round(s: ControllerState, n: nat)
    requires
        s.wf(),
        s.awaits_sensor(),
        n <= IDLE_POLLS,
    ensures
        n < IDLE_POLLS ==> unpressed(s.after_reading(), n) == (ControllerState {
            stage: StageState::Idle(n as int),
            ..s
        }),
        n < IDLE_POLLS - 1 ==> unpressed(s.after_reading(), n).query_after_button(false) == (
        Query::Button { after_ms: IDLE_PAUSE }),
        n == IDLE_POLLS - 1 ==> unpressed(s.after_reading(), n).query_after_button(false) == (
        Query::Sensor { after_ms: 0 }),
        n == IDLE_POLLS ==> unpressed(s.after_reading(), n) == (ControllerState {
            clock: s.clock.round_later(),
            ..s
        }),
        IDLE_POLLS * IDLE_PAUSE == 1000 * ROUND_SECONDS,
    decreases n,
{
    if n > 0 {
        lemma_quiet_round(s, (n - 1) as nat);
    }
}

/// A press on the weather screen: however long the button is held, the sorting
/// screen follows its release, the round counts as ended, and nothing else has
/// changed.
pub proof fn lemma_press_leads_to_sort(s: ControllerState, n: nat)
    requires
        s.wf(),
        s.stage is Idle,
        n >= 1,
    ensures
        pressed(s, n) == (ControllerState { stage: StageState::Leaving, ..s }),
        pressed(s, n).screen() == Screen::Weather,
        pressed(s, n).query_after_button(true) == (Query::Button { after_ms: RELEASE_PAUSE }),
        pressed(s, n).after_button(false) == (ControllerState {
            clock: s.clock.round_later(),
            stage: StageState::Settling,
            ..s
        }),
        pressed(s, n).after_button(false).screen() == Screen::Sort,
    decreases n,
{
    if n > 1 {
        lemma_press_leads_to_sort(s, (n - 1) as nat);
    } else {
        assert(pressed(s, 0) == s);
    }
}

/// A press during a sort, before whichever comparison: however long the button is
/// held, the weather screen follows its release after 300 ms, with the clock and
/// the generator as they were.
pub proof fn lemma_press_interrupts_sort(s: ControllerState, n: nat)
    requires
        s.wf(),
        s.stage is Sorting,
        n >= 1,
    ensures
        pressed(s, n) == (ControllerState { stage: StageState::Aborting, ..s }),
        pressed(s, n).query_after_button(true) == (Query::Button { after_ms: RELEASE_PAUSE }),
        pressed(s, n).query_after_button(false) == (Query::Sensor { after_ms: COOLDOWN }),
        pressed(s, n).after_button(false) == (ControllerState { stage: StageState::Sensing, ..s }),
        pressed(s, n).after_button(false).screen() == Screen::Weather,
    decreases n,
{
    if n > 1 {
        lemma_press_interrupts_sort(s, (n - 1) as nat);
    } else {
        assert(pressed(s, 0) == s);
    }
}

/// No sort begins while the button is held.
pub proof fn lemma_sort_waits_for_release(s: ControllerState, n: nat)
    requires
        s.stage is Settling,
    ensures
        pressed(s, n) == s,
        s.query_after_button(true) == (Query::Button { after_ms: RELEASE_PAUSE }),
    decreases n,
{
    if n > 0 {
        lemma_sort_waits_for_release(s, (n - 1) as nat);
    }
}

/// A sort that nobody interrupts: after its bars are drawn, each look at the button
/// makes one comparison until the sort is finished.
pub proof fn lemma_quiet_sort_goes_on(s: ControllerState, n: nat)
    requires
        s.wf(),
        s.stage is Settling,
        !sort_after(heights_from(s.seed), n).done(),
    ensures
        unpressed(s, n + 1) == (ControllerState {
            clock: s.clock,
            seed: lcg_after(s.seed, NUM_BARS as nat),
            stage: StageState::Sorting(sort_after(heights_from(s.seed), n)),
        }),
    decreases n,
{
    if n == 0 {
        assert(unpressed(s, 0) == s);
    } else {
        lemma_quiet_sort_goes_on(s, (n - 1) as nat);
    }
}

/// The comparisons of a sort of `arr` that nobody interrupts, counted from `n` on.
pub open spec fn comparisons_from(arr: Seq<u8>, n: nat) -> nat
    decreases 190 - n,
{
    if n >= 190 || sort_after(arr, n).done() {
        n
    } else {
        comparisons_from(arr, n + 1)
    }
}

/// The comparisons of a sort of `arr` that nobody interrupts.
pub open spec fn comparisons(arr: Seq<u8>) -> nat {
    comparisons_from(arr, 0)
}

proof fn lemma_comparisons_from(arr: Seq<u8>, n: nat)
    requires
        arr.len() == NUM_BARS,
        n <= 190,
        forall|m: nat| m < n ==> !(#[trigger] sort_after(arr, m)).done(),
    ensures
        n <= comparisons_from(arr, n) <= 190,
        sort_after(arr, comparisons_from(arr, n)).done(),
        forall|m: nat| m < comparisons_from(arr, n) ==> !(#[trigger] sort_after(arr, m)).done(),
    decreases 190 - n,
{
    if n >= 190 {
        lemma_sort_finishes(arr, n);
    } else if !sort_after(arr, n).done() {
        lemma_comparisons_from(arr, n + 1);
    }
}

/// A sort that nobody interrupts ends after at most 190 comparisons. Then its bars
/// are in order, none has been lost or added, and the program stays on the sorting
/// screen, where the next sort begins with new bars.
pub proof fn lemma_quiet_sort_ends(s: ControllerState)
    requires
        s.wf(),
        s.stage is Settling,
    ensures
        ({
            let arr = heights_from(s.seed);
            let n = comparisons(arr);
            let end = sort_after(arr, n);
            &&& 1 <= n <= 190
            &&& sorted(end.arr)
            &&& end.arr.to_multiset() == arr.to_multiset()
            &&& unpressed(s, n).stage == StageState::Sorting(sort_after(arr, (n - 1) as nat))
            &&& sort_after(arr, (n - 1) as nat).stepped() == end
            &&& unpressed(s, n + 1) == (ControllerState {
                seed: lcg_after(s.seed, NUM_BARS as nat),
                ..s
            })
        }),
{
    let arr = heights_from(s.seed);
    let n = comparisons(arr);
    lemma_heights_fit(s.seed);
    lemma_comparisons_from(arr, 0);
    lemma_begun_wf(arr);
    assert(!sort_after(arr, 0).done());
    lemma_sort_after(arr, n);
    lemma_done_sorted(sort_after(arr, n));
    lemma_quiet_sort_goes_on(s, (n - 1) as nat);
}

/// The bars of a sort that begins are on the panel, whatever it showed before they
/// were painted.
pub proof fn lemma_panel_at_start(picture: spec_fn(int, int) -> Color, s: ControllerState)
    requires
        s.wf(),
        s.stage is Settling,
    ensures
        s.after_button(false).stage matches StageState::Sorting(sort) && shows(
            played(picture, all_bars_effects(heights_from(s.seed))),
            sort.arr,
        ),
{
    lemma_heights_fit(s.seed);
    lemma_begun_wf(heights_from(s.seed));
    lemma_all_bars_shown(picture, heights_from(s.seed));
}

/// The panel keeps up with a sort. If it shows the bars before a comparison, it shows
/// them after what is shown of the comparison; and when the sort ends, it shows them
/// in order and in green.
pub proof fn lemma_panel_keeps_up(
    picture: spec_fn(int, int) -> Color,
    s: ControllerState,
    sort: SortState,
)
    requires
        s.wf(),
        s.stage == StageState::Sorting(sort),
        shows(picture, sort.arr),
    ensures
        s.after_button(false).stage matches StageState::Sorting(next) ==> shows(
            played(picture, sort.step_effects()),
            next.arr,
        ),
        s.after_button(false).stage is Settling ==> {
            &&& sorted(sort.stepped().arr)
            &&& shows_sorted(
                played(picture, sort.step_effects() + finale_effects(sort.stepped().arr)),
                sort.stepped().arr,
            )
        },
{
    lemma_stepped_shown(picture, sort);
    lemma_stepped_wf(sort);
    lemma_stepped_fits(sort);
    if sort.stepped().done() {
        let end = sort.stepped().arr;
        lemma_done_sorted(sort.stepped());
        lemma_played_concat(picture, sort.step_effects(), finale_effects(end));
        lemma_finale_shown(played(picture, sort.step_effects()), end);
    }
}

} // verus!
