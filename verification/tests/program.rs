use weather_sort::bars::{draw_all_bars, draw_bar, Effect, Fill, NUM_BARS};
use weather_sort::clock::Clock;
use weather_sort::color::Color;
use weather_sort::controller::{Controller, Output, Query, Screen, Show};
use weather_sort::icons::{draw_icon, CLOCK, DROP, THERMOMETER};
use weather_sort::rng::gen_array;
use weather_sort::sort::Progress;
use weather_sort::weather::{Label, Reading};

/// Everything that can be seen of the program from outside.
#[derive(Clone, Debug, PartialEq)]
enum Op {
    Sense,
    Poll,
    Delay(u32),
    Lamp(bool),
    Clear(Color),
    Icon(Vec<(i32, i32)>),
    Text(String, i32, i32, Color),
    Fill(Fill),
}

/// What the sensor and the button report, until it is used up.
struct World {
    readings: Vec<Option<Reading>>,
    buttons: Vec<bool>,
    log: Vec<Op>,
}

impl World {
    fn new(readings: &[Option<Reading>], buttons: &[bool]) -> World {
        let mut readings = readings.to_vec();
        let mut buttons = buttons.to_vec();
        readings.reverse();
        buttons.reverse();
        World { readings, buttons, log: Vec::new() }
    }

    fn sense(&mut self) -> Option<Option<Reading>> {
        let reading = self.readings.pop()?;
        self.log.push(Op::Sense);
        Some(reading)
    }

    fn is_low(&mut self) -> Option<bool> {
        let low = self.buttons.pop()?;
        self.log.push(Op::Poll);
        Some(low)
    }

    fn delay(&mut self, ms: u32) {
        if ms > 0 {
            self.log.push(Op::Delay(ms));
        }
    }

    fn play(&mut self, effects: &[Effect]) {
        for effect in effects {
            match effect {
                Effect::Fill(fill) => self.log.push(Op::Fill(*fill)),
                Effect::Pause(ms) => self.delay(*ms),
            }
        }
    }

    fn icon(&mut self, icon: &[u16; 12], x: i32, y: i32) {
        let pixels = draw_icon(icon, x, y);
        let places = (0..pixels.count()).map(|n| (pixels.pixel(n).x, pixels.pixel(n).y)).collect();
        self.log.push(Op::Icon(places));
    }

    fn text(&mut self, text: &str, x: i32, y: i32, color: Color) {
        self.log.push(Op::Text(String::from(text), x, y, color));
    }

    fn label(&mut self, label: &Label) {
        let pixels = &label.icon;
        let places = (0..pixels.count()).map(|n| (pixels.pixel(n).x, pixels.pixel(n).y)).collect();
        self.log.push(Op::Icon(places));
        self.text(label.text.as_str(), label.x, label.y, label.color);
    }

    fn progress(&mut self, progress: &Progress) {
        if let Some(effects) = &progress.exchange {
            self.play(effects);
        }
        if let Some(effects) = &progress.pivot {
            self.play(effects);
        }
    }

    fn show(&mut self, show: &Show) {
        match show {
            Show::Nothing => {}
            Show::Weather(view) => {
                self.log.push(Op::Lamp(view.lamp));
                self.log.push(Op::Clear(view.background));
                self.label(&view.temperature);
                self.label(&view.humidity);
                self.label(&view.time);
            }
            Show::Bars(view) => {
                self.log.push(Op::Clear(view.background));
                self.text(view.title.text, view.title.x, view.title.y, view.title.color);
                self.play(&view.bars);
            }
            Show::Comparison(progress) => self.progress(progress),
            Show::Finish(progress, end) => {
                self.progress(progress);
                self.play(end);
            }
        }
    }
}

/// Runs the controller until the reports are used up.
fn run_controller(world: &mut World) -> Controller {
    let (mut controller, mut query) = Controller::new();
    loop {
        let output: Output = match query {
            Query::Sensor { after_ms } => {
                world.delay(after_ms);
                match world.sense() {
                    Some(reading) => controller.on_reading(reading),
                    None => return controller,
                }
            }
            Query::Button { after_ms } => {
                world.delay(after_ms);
                match world.is_low() {
                    Some(low) => controller.on_button(low),
                    None => return controller,
                }
            }
        };
        world.show(&output.show);
        query = output.query;
    }
}

/// The same course written as one loop that blocks wherever it waits.
fn run_blocking(world: &mut World) -> Option<()> {
    let (mut hours, mut minutes, mut seconds): (u8, u8, u8) = (14, 30, 0);
    let mut seed: u32 = 12345;
    let mut sort_screen = false;
    loop {
        if !sort_screen {
            let (lamp, temp, hum) = match world.sense()? {
                Some(reading) => (true, reading.temperature, reading.humidity),
                None => (false, 0, 0),
            };
            world.log.push(Op::Lamp(lamp));
            world.log.push(Op::Clear(Color::black()));
            world.icon(&THERMOMETER, 6, 10);
            world.text(&format!("{}C", temp), 24, 4, Color::new(31, 0, 0));
            world.icon(&DROP, 130, 10);
            world.text(&format!("{}%", hum), 148, 4, Color::new(0, 32, 31));
            world.icon(&CLOCK, 50, 75);
            world.text(&format!("{:02}:{:02}", hours, minutes), 68, 68, Color::white());
            for _ in 0..40 {
                world.delay(50);
                if world.is_low()? {
                    while world.is_low()? {
                        world.delay(10);
                    }
                    sort_screen = true;
                    break;
                }
            }
            seconds += 2;
            if seconds >= 60 {
                seconds -= 60;
                minutes += 1;
                if minutes >= 60 {
                    minutes = 0;
                    hours += 1;
                    if hours >= 24 {
                        hours = 0;
                    }
                }
            }
        } else {
            while world.is_low()? {
                world.delay(10);
            }
            let mut arr = gen_array(&mut seed);
            let mut interrupted = false;
            world.log.push(Op::Clear(Color::black()));
            world.text("Quick Sort", 2, 2, Color::white());
            world.play(&draw_all_bars(&arr));
            let mut stack = [(0usize, 0usize); NUM_BARS];
            let mut stack_top: usize = 0;
            stack[stack_top] = (0, NUM_BARS - 1);
            stack_top += 1;
            'sort: while stack_top > 0 {
                stack_top -= 1;
                let (lo, hi) = stack[stack_top];
                if lo >= hi {
                    continue;
                }
                let pivot = arr[hi] as usize;
                let mut i = lo;
                for j in lo..hi {
                    if world.is_low()? {
                        interrupted = true;
                        break 'sort;
                    }
                    if (arr[j] as usize) <= pivot {
                        if i != j {
                            world.play(&draw_bar(&arr, j, true));
                            world.delay(100);
                            arr.swap(i, j);
                            world.play(&draw_bar(&arr, j, false));
                            world.play(&draw_bar(&arr, i, true));
                            world.delay(100);
                            world.play(&draw_bar(&arr, i, false));
                        }
                        i += 1;
                    }
                }
                if i != hi {
                    world.play(&draw_bar(&arr, hi, true));
                    world.delay(50);
                    arr.swap(i, hi);
                    world.play(&draw_bar(&arr, hi, false));
                    world.play(&draw_bar(&arr, i, true));
                    world.delay(50);
                    world.play(&draw_bar(&arr, i, false));
                }
                if i > lo && stack_top < NUM_BARS - 1 {
                    stack[stack_top] = (lo, i - 1);
                    stack_top += 1;
                }
                if i < hi && stack_top < NUM_BARS - 1 {
                    stack[stack_top] = (i + 1, hi);
                    stack_top += 1;
                }
            }
            if interrupted {
                while world.is_low()? {
                    world.delay(10);
                }
                world.delay(300);
                sort_screen = false;
            } else {
                world.play(&draw_all_bars(&arr));
                world.delay(500);
                for k in 0..NUM_BARS {
                    let slot = draw_bar(&arr, k, false)[0];
                    let bar = Fill {
                        x: (k * 12) as i32,
                        y: 134 - arr[k] as i32,
                        width: 10,
                        height: arr[k] as u32,
                        color: Color::new(0, 63, 0),
                    };
                    world.play(&[slot, Effect::Fill(bar)]);
                    world.delay(80);
                }
                world.delay(3000);
            }
        }
    }
}

fn compare_runs(readings: &[Option<Reading>], buttons: &[bool]) -> Vec<Op> {
    let mut one = World::new(readings, buttons);
    let mut other = World::new(readings, buttons);
    run_controller(&mut one);
    let _ = run_blocking(&mut other);
    // A wait that is followed by no report is seen by both or by none.
    assert_eq!(one.log.len(), other.log.len());
    for n in 0..one.log.len() {
        assert_eq!(one.log[n], other.log[n]);
    }
    one.log
}

fn mild() -> Option<Reading> {
    Some(Reading { temperature: 21, humidity: 45 })
}

#[test]
fn a_quiet_round() {
    let log = compare_runs(&[mild(), None], &[false; 40]);
    assert_eq!(log[0], Op::Sense);
    assert_eq!(log[1], Op::Lamp(true));
    assert_eq!(log[4], Op::Text(String::from("21C"), 24, 4, Color { r: 31, g: 0, b: 0 }));
    assert_eq!(log[6], Op::Text(String::from("45%"), 148, 4, Color { r: 0, g: 32, b: 31 }));
    assert_eq!(log[8], Op::Text(String::from("14:30"), 68, 68, Color::white()));
    let waited: u32 = log.iter().map(|op| if let Op::Delay(ms) = op { *ms } else { 0 }).sum();
    // The second round has begun to wait for its first look at the button.
    assert_eq!(waited, 2000 + 50);
    assert!(log.contains(&Op::Lamp(false)));
    assert!(log.contains(&Op::Text(String::from("0C"), 24, 4, Color { r: 31, g: 0, b: 0 })));
    assert!(log.contains(&Op::Text(String::from("0%"), 148, 4, Color { r: 0, g: 32, b: 31 })));
}

#[test]
fn the_clock_shows_on_the_screen() {
    let readings = [mild(); 61];
    let buttons = [false; 61 * 40];
    let log = compare_runs(&readings, &buttons);
    assert!(log.contains(&Op::Text(String::from("14:31"), 68, 68, Color::white())));
    assert!(log.contains(&Op::Text(String::from("14:32"), 68, 68, Color::white())));
    assert!(!log.contains(&Op::Text(String::from("14:33"), 68, 68, Color::white())));
}

#[test]
fn a_press_leads_to_a_sort() {
    let mut buttons = vec![false, false, true, true, true, true, false, true, true, false];
    buttons.extend([false; 81]);
    buttons.push(false);
    let log = compare_runs(&[mild()], &buttons);
    assert!(log.contains(&Op::Text(String::from("Quick Sort"), 2, 2, Color::white())));
    assert!(log.contains(&Op::Delay(3000)));
}

#[test]
fn three_sorts_in_a_row() {
    let mut buttons = vec![true, false];
    buttons.extend([false; 1 + 81 + 1 + 93 + 1 + 60]);
    let log = compare_runs(&[mild()], &buttons);
    assert_eq!(log.iter().filter(|op| **op == Op::Delay(3000)).count(), 3);
}

#[test]
fn a_press_interrupts_a_sort() {
    for comparisons in 0..81 {
        let mut buttons = vec![true, false, false];
        for _ in 0..comparisons {
            buttons.push(false);
        }
        buttons.extend([true, true, false, false, true, false, false, false]);
        let log = compare_runs(&[None, mild()], &buttons);
        assert!(log.contains(&Op::Delay(300)));
        assert!(log.contains(&Op::Lamp(true)));
    }
}

#[test]
fn scattered_presses() {
    let mut state: u32 = 7;
    for _ in 0..40 {
        let mut buttons = Vec::new();
        for _ in 0..600 {
            state = state.wrapping_mul(1103515245).wrapping_add(12345);
            buttons.push((state >> 16) % 37 == 0);
        }
        let mut readings = Vec::new();
        for n in 0..600 {
            readings.push(if n % 3 == 0 { None } else { mild() });
        }
        compare_runs(&readings, &buttons);
    }
}

#[test]
fn screens_and_time() {
    let mut world = World::new(&[mild()], &[false, true]);
    let controller = run_controller(&mut world);
    assert_eq!(controller.screen(), Screen::Weather);
    assert_eq!(controller.clock(), Clock { hours: 14, minutes: 30, seconds: 0 });
    let mut world = World::new(&[mild()], &[false, true, false]);
    let controller = run_controller(&mut world);
    assert_eq!(controller.screen(), Screen::Sort);
    assert_eq!(controller.clock(), Clock { hours: 14, minutes: 30, seconds: 2 });
    let mut world = World::new(&[mild()], &[true, false, false, false, true]);
    let controller = run_controller(&mut world);
    assert_eq!(controller.screen(), Screen::Sort);
    let mut world = World::new(&[mild()], &[true, false, false, false, true, false]);
    let controller = run_controller(&mut world);
    assert_eq!(controller.screen(), Screen::Weather);
    assert_eq!(controller.clock(), Clock { hours: 14, minutes: 30, seconds: 2 });
}
