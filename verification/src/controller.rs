//! The course of the program: from what the sensor and the button report to what
//! is shown and what is asked next.
//!
//! The controller is asked to go on with each report. It answers with something to
//! show and then the next thing to look at, which may have to wait a while.

use vstd::prelude::*;

use crate::bars::{
    draw_all_bars, finale, Effect, ALL_BARS_EFFECTS, FINALE_EFFECTS, NUM_BARS,
};
#[allow(unused_imports)]
use crate::bars::{all_bars_effects, finale_effects};
use crate::clock::Clock;
use crate::color::Color;
#[allow(unused_imports)]
use crate::color::{black_color, white_color};
#[allow(unused_imports)]
use crate::course::program_start;
use crate::rng::gen_array;
#[allow(unused_imports)]
use crate::rng::{heights_fit, heights_from, lcg_after};
#[allow(unused_imports)]
use crate::sort::animation;
use crate::sort::{Progress, Sorter};
use crate::sort_model::SortState;
#[allow(unused_imports)]
use crate::sort_model::{begun, lemma_begun_wf, lemma_stepped_fits, lemma_stepped_wf};
use crate::weather::{weather_view, Reading, WeatherView};

verus! {

/// How often the button is looked at in one round of the weather screen.
pub const IDLE_POLLS: usize = 40;

/// The milliseconds before each of these looks.
pub const IDLE_PAUSE: u32 = 50;

/// The milliseconds between two looks at a button that is held down.
pub const RELEASE_PAUSE: u32 = 10;

/// The milliseconds after the button was released to leave the sorting screen.
pub const COOLDOWN: u32 = 300;

/// The state in which the number generator starts.
pub const FIRST_SEED: u32 = 12345;

/// The screen that is active.
#[derive(Clone, Copy, Debug, PartialEq, Eq, Structural)]
pub enum Screen {
    Weather,
    Sort,
}

/// What to look at next, after so many milliseconds.
#[derive(Clone, Copy, Debug, PartialEq, Eq, Structural)]
pub enum Query {
    /// Take a measurement.
    Sensor { after_ms: u32 },
    /// See whether the button is down.
    Button { after_ms: u32 },
}

/// A title in white, whose upper left corner stands at `x` and `y`.
#[derive(Clone, Copy, Debug)]
pub struct Title {
    pub text: &'static str,
    pub x: i32,
    pub y: i32,
    pub color: Color,
}

/// The sorting screen before the first comparison. The panel is filled with the
/// background, then the title and the bars are painted.
#[derive(Clone, Copy, Debug)]
pub struct BarsView {
    pub background: Color,
    pub title: Title,
    pub bars: [Effect; ALL_BARS_EFFECTS],
}

/// What to show.
#[derive(Debug)]
pub enum Show {
    /// Leave the panel as it is.
    Nothing,
    /// Show the weather screen.
    Weather(WeatherView),
    /// Show the bars of a sort that begins.
    Bars(BarsView),
    /// Show one comparison.
    Comparison(Progress),
    /// Show the last comparison of a sort, then how it ends.
    Finish(Progress, [Effect; FINALE_EFFECTS]),
}

/// The controller's answer to a report.
#[derive(Debug)]
pub struct Output {
    pub show: Show,
    pub query: Query,
}

/// Where the program stands.
#[derive(Clone, Copy, Debug)]
enum Stage {
    Sensing,
    Idle(usize),
    Leaving,
    Settling,
    Sorting(Sorter),
    Aborting,
}

/// Runs the two screens.
#[derive(Clone, Copy, Debug)]
pub struct Controller {
    clock: Clock,
    seed: u32,
    stage: Stage,
}

/// Where the program stands, and what it waits for.
pub enum StageState {
    /// On the weather screen, for a measurement.
    Sensing,
    /// On the weather screen, for the button, which was up so many times.
    Idle(int),
    /// On the weather screen, for the button to be released.
    Leaving,
    /// On the sorting screen, for the button to be up.
    Settling,
    /// On the sorting screen, for the button before a comparison.
    Sorting(SortState),
    /// On the sorting screen, for the button to be released after an interruption.
    Aborting,
}

/// The state of the program.
pub struct ControllerState {
    pub clock: Clock,
    pub seed: u32,
    pub stage: StageState,
}

impl BarsView {
    /// The view shows `arr` under the title.
    pub open spec fn shows(self, arr: Seq<u8>) -> bool {
        &&& self.background == black_color()
        &&& self.title.text@ == "Quick Sort"@
        &&& self.title.x == 2
        &&& self.title.y == 2
        &&& self.title.color == white_color()
        &&& self.bars@ == all_bars_effects(arr)
    }
}

/// The animations of a comparison in state `sort`.
pub open spec fn compares(progress: Progress, sort: SortState) -> bool {
    &&& animation(progress.exchange) == sort.exchange_shown()
    &&& animation(progress.pivot) == sort.pivot_shown()
}

impl ControllerState {
    /// The screen that is active.
    pub open spec fn screen(self) -> Screen {
        match self.stage {
            StageState::Sensing | StageState::Idle(_) | StageState::Leaving => Screen::Weather,
            _ => Screen::Sort,
        }
    }

    /// The program waits for a measurement.
    pub open spec fn awaits_sensor(self) -> bool {
        self.stage is Sensing
    }

    /// What every state of the program satisfies.
    pub open spec fn wf(self) -> bool {
        &&& self.clock.wf()
        &&& match self.stage {
            StageState::Idle(polls) => 0 <= polls < IDLE_POLLS,
            StageState::Sorting(sort) => sort.wf() && !sort.done() && heights_fit(sort.arr),
            _ => true,
        }
    }

    /// The state after a measurement.
    pub open spec fn after_reading(self) -> ControllerState {
        ControllerState { stage: StageState::Idle(0), ..self }
    }

    /// The state after a look at the button. Nothing happens where the program
    /// waits for a measurement instead.
    pub open spec fn after_button(self, low: bool) -> ControllerState {
        match self.stage {
            StageState::Sensing => self,
            StageState::Idle(polls) => if low {
                ControllerState { stage: StageState::Leaving, ..self }
            } else if polls + 1 < IDLE_POLLS {
                ControllerState { stage: StageState::Idle(polls + 1), ..self }
            } else {
                ControllerState {
                    clock: self.clock.round_later(),
                    stage: StageState::Sensing,
                    ..self
                }
            },
            StageState::Leaving => if low {
                self
            } else {
                ControllerState {
                    clock: self.clock.round_later(),
                    stage: StageState::Settling,
                    ..self
                }
            },
            StageState::Settling => if low {
                self
            } else {
                ControllerState {
                    seed: lcg_after(self.seed, NUM_BARS as nat),
                    stage: StageState::Sorting(begun(heights_from(self.seed))),
                    ..self
                }
            },
            StageState::Sorting(sort) => if low {
                ControllerState { stage: StageState::Aborting, ..self }
            } else if sort.stepped().done() {
                ControllerState { stage: StageState::Settling, ..self }
            } else {
                ControllerState { stage: StageState::Sorting(sort.stepped()), ..self }
            },
            StageState::Aborting => if low {
                self
            } else {
                ControllerState { stage: StageState::Sensing, ..self }
            },
        }
    }

    /// What to look at after a look at the button.
    pub open spec fn query_after_button(self, low: bool) -> Query {
        match self.stage {
            StageState::Sensing => Query::Sensor { after_ms: 0 },
            StageState::Idle(polls) => if low {
                Query::Button { after_ms: 0 }
            } else if polls + 1 < IDLE_POLLS {
                Query::Button { after_ms: IDLE_PAUSE }
            } else {
                Query::Sensor { after_ms: 0 }
            },
            StageState::Leaving | StageState::Settling => if low {
                Query::Button { after_ms: RELEASE_PAUSE }
            } else {
                Query::Button { after_ms: 0 }
            },
            StageState::Sorting(sort) => Query::Button { after_ms: 0 },
            StageState::Aborting => if low {
                Query::Button { after_ms: RELEASE_PAUSE }
            } else {
                Query::Sensor { after_ms: COOLDOWN }
            },
        }
    }

    /// What a look at the button shows.
    pub open spec fn button_shows(self, low: bool, show: Show) -> bool {
        match self.stage {
            StageState::Settling if !low => {
                &&& show matches Show::Bars(view)
                &&& view.shows(heights_from(self.seed))
            },
            StageState::Sorting(sort) if !low => if sort.stepped().done() {
                &&& show matches Show::Finish(progress, end)
                &&& compares(progress, sort)
                &&& end@ == finale_effects(sort.stepped().arr)
            } else {
                &&& show matches Show::Comparison(progress)
                &&& compares(progress, sort)
            },
            _ => show is Nothing,
        }
    }
}

impl View for Controller {
    type V = ControllerState;

    closed spec fn view(&self) -> ControllerState {
        ControllerState {
            clock: self.clock,
            seed: self.seed,
            stage: match self.stage {
                Stage::Sensing => StageState::Sensing,
                Stage::Idle(polls) => StageState::Idle(polls as int),
                Stage::Leaving => StageState::Leaving,
                Stage::Settling => StageState::Settling,
                Stage::Sorting(sorter) => StageState::Sorting(sorter@),
                Stage::Aborting => StageState::Aborting,
            },
        }
    }
}

impl Controller {
    /// The controller is in a state of the program.
    pub closed spec fn wf(self) -> bool {
        &&& self@.wf()
        &&& self.stage matches Stage::Sorting(sorter) ==> sorter.wf()
    }

    /// A controller in this condition is in a state of the program.
    pub proof fn lemma_wf(self)
        requires
            self.wf(),
        ensures
            self@.wf(),
    {
    }

    /// A program that begins on the weather screen, and what it looks at first.
    pub fn new() -> (start: (Controller, Query))
        ensures
            start.0.wf(),
            start.0@ == program_start(),
            start.0@ == (ControllerState {
                clock: Clock { hours: 14, minutes: 30, seconds: 0 },
                seed: FIRST_SEED,
                stage: StageState::Sensing,
            }),
            start.1 == (Query::Sensor { after_ms: 0 }),
    {
        (
            Controller { clock: Clock::new(), seed: FIRST_SEED, stage: Stage::Sensing },
            Query::Sensor { after_ms: 0 },
        )
    }

    /// The screen that is active.
    pub fn screen(&self) -> (screen: Screen)
        ensures
            screen == self@.screen(),
    {
        match self.stage {
            Stage::Sensing | Stage::Idle(_) | Stage::Leaving => Screen::Weather,
            Stage::Settling | Stage::Sorting(_) | Stage::Aborting => Screen::Sort,
        }
    }

    /// The time of day.
    pub fn clock(&self) -> (clock: Clock)
        ensures
            clock == self@.clock,
    {
        self.clock
    }

    /// Goes on with a measurement, or with the news that it failed.
    pub fn on_reading(&mut self, reading: Option<Reading>) -> (output: Output)
        requires
            old(self).wf(),
            old(self)@.awaits_sensor(),
        ensures
            final(self).wf(),
            final(self)@ == old(self)@.after_reading(),
            output.query == (Query::Button { after_ms: IDLE_PAUSE }),
            output.query is Sensor == final(self)@.awaits_sensor(),
            output.show matches Show::Weather(view) && view.shows(reading, old(self)@.clock),
    {
        let view = weather_view(reading, &self.clock);
        self.stage = Stage::Idle(0);
        Output { show: Show::Weather(view), query: Query::Button { after_ms: IDLE_PAUSE } }
    }

    /// Goes on with a look at the button, which is down if it reads low.
    pub fn on_button(&mut self, low: bool) -> (output: Output)
        requires
            old(self).wf(),
            !old(self)@.awaits_sensor(),
        ensures
            final(self).wf(),
            final(self)@ == old(self)@.after_button(low),
            output.query == old(self)@.query_after_button(low),
            output.query is Sensor == final(self)@.awaits_sensor(),
            old(self)@.button_shows(low, output.show),
    {
        let held = Output {
            show: Show::Nothing,
            query: Query::Button { after_ms: RELEASE_PAUSE },
        };
        let again = Output { show: Show::Nothing, query: Query::Button { after_ms: 0 } };
        match self.stage {
            Stage::Sensing => again,
            Stage::Idle(polls) => {
                if low {
                    self.stage = Stage::Leaving;
                    again
                } else if polls + 1 < IDLE_POLLS {
                    self.stage = Stage::Idle(polls + 1);
                    Output { show: Show::Nothing, query: Query::Button { after_ms: IDLE_PAUSE } }
                } else {
                    self.clock.advance();
                    self.stage = Stage::Sensing;
                    Output { show: Show::Nothing, query: Query::Sensor { after_ms: 0 } }
                }
            },
            Stage::Leaving => {
                if low {
                    held
                } else {
                    self.clock.advance();
                    self.stage = Stage::Settling;
                    again
                }
            },
            Stage::Settling => {
                if low {
                    held
                } else {
                    let arr = gen_array(&mut self.seed);
                    let sorter = Sorter::new(arr);
                    proof {
                        lemma_begun_wf(arr@);
                        sorter.lemma_wf();
                    }
                    self.stage = Stage::Sorting(sorter);
                    let title = Title { text: "Quick Sort", x: 2, y: 2, color: Color::white() };
                    let view = BarsView {
                        background: Color::black(),
                        title,
                        bars: draw_all_bars(&arr),
                    };
                    Output { show: Show::Bars(view), query: Query::Button { after_ms: 0 } }
                }
            },
            Stage::Sorting(mut sorter) => {
                if low {
                    self.stage = Stage::Aborting;
                    again
                } else {
                    proof {
                        lemma_stepped_wf(sorter@);
                        lemma_stepped_fits(sorter@);
                    }
                    let progress = sorter.step();
                    if sorter.is_done() {
                        let end = finale(&sorter.bars());
                        self.stage = Stage::Settling;
                        Output {
                            show: Show::Finish(progress, end),
                            query: Query::Button { after_ms: 0 },
                        }
                    } else {
                        self.stage = Stage::Sorting(sorter);
                        Output {
                            show: Show::Comparison(progress),
                            query: Query::Button { after_ms: 0 },
                        }
                    }
                }
            },
            Stage::Aborting => {
                if low {
                    held
                } else {
                    self.stage = Stage::Sensing;
                    Output { show: Show::Nothing, query: Query::Sensor { after_ms: COOLDOWN } }
                }
            },
        }
    }
}

} // verus!
