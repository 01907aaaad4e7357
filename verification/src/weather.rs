//! The weather screen: three labels, each an icon with a text beside it.

use heapless::String;
use vstd::prelude::*;

use crate::canvas::{PANEL_HEIGHT, PANEL_WIDTH};
use crate::clock::Clock;
use crate::color::Color;
#[allow(unused_imports)]
use crate::color::{black_color, rgb565, white_color};
use crate::icons::{
    draw_icon, IconPixels, Pixel, CLOCK, DROP, ICON_PIXELS, ICON_SIZE, THERMOMETER,
};
#[allow(unused_imports)]
use crate::icons::{icon_pixels, lemma_icon_pixels_exact};
use crate::text::{humidity_text, temperature_text, time_text};
#[allow(unused_imports)]
use crate::text::{humidity_bytes, temperature_bytes, text_bytes, time_bytes};

verus! {

/// What the sensor measured.
#[derive(Clone, Copy, Debug, PartialEq, Eq, Structural)]
pub struct Reading {
    /// Degrees Celsius.
    pub temperature: i8,
    /// Relative humidity in per cent.
    pub humidity: u8,
}

/// An icon, and a text whose upper left corner stands at `x` and `y`.
#[derive(Debug)]
pub struct Label {
    pub icon: IconPixels,
    pub text: String<16>,
    pub x: i32,
    pub y: i32,
    pub color: Color,
}

/// What the weather screen shows. The lamp is switched and the panel filled with
/// the background before the labels are painted, one after the other.
#[derive(Debug)]
pub struct WeatherView {
    pub lamp: bool,
    pub background: Color,
    pub temperature: Label,
    pub humidity: Label,
    pub time: Label,
}

/// What the screen shows of a measurement: zeros if it failed.
pub open spec fn shown_reading(reading: Option<Reading>) -> Reading {
    match reading {
        Some(reading) => reading,
        None => Reading { temperature: 0, humidity: 0 },
    }
}

impl Label {
    /// The label has the icon at its place and the text at its own, in its colour.
    pub open spec fn is(
        self,
        icon: Seq<u16>,
        icon_x: int,
        icon_y: int,
        text: Seq<u8>,
        x: int,
        y: int,
        color: Color,
    ) -> bool {
        &&& self.icon@ == icon_pixels(icon, icon_x, icon_y, ICON_PIXELS as int)
        &&& text_bytes(self.text) == text
        &&& self.x == x
        &&& self.y == y
        &&& self.color == color
    }
}

impl WeatherView {
    /// The view shows a measurement, or that there was none, and the time of day.
    pub open spec fn shows(self, reading: Option<Reading>, clock: Clock) -> bool {
        let shown = shown_reading(reading);
        &&& self.lamp == (reading is Some)
        &&& self.background == black_color()
        &&& self.temperature.is(
            THERMOMETER@,
            6,
            10,
            temperature_bytes(shown.temperature),
            24,
            4,
            rgb565(31, 0, 0),
        )
        &&& self.humidity.is(
            DROP@,
            130,
            10,
            humidity_bytes(shown.humidity),
            148,
            4,
            rgb565(0, 32, 31),
        )
        &&& self.time.is(
            CLOCK@,
            50,
            75,
            time_bytes(clock.hours, clock.minutes),
            68,
            68,
            white_color(),
        )
    }
}

/// The weather screen for a measurement. The lamp tells whether it succeeded.
pub fn weather_view(reading: Option<Reading>, clock: &Clock) -> (view: WeatherView)
    ensures
        view.shows(reading, *clock),
{
    let (lamp, temperature, humidity): (bool, i8, u8) = match reading {
        Some(reading) => (true, reading.temperature, reading.humidity),
        None => (false, 0, 0),
    };
    WeatherView {
        lamp,
        background: Color::black(),
        temperature: Label {
            icon: draw_icon(&THERMOMETER, 6, 10),
            text: temperature_text(temperature),
            x: 24,
            y: 4,
            color: Color::new(31, 0, 0),
        },
        humidity: Label {
            icon: draw_icon(&DROP, 130, 10),
            text: humidity_text(humidity),
            x: 148,
            y: 4,
            color: Color::new(0, 32, 31),
        },
        time: Label {
            icon: draw_icon(&CLOCK, 50, 75),
            text: time_text(clock),
            x: 68,
            y: 68,
            color: Color::white(),
        },
    }
}

/// All pixels lie on the panel.
pub open spec fn on_panel(pixels: Seq<Pixel>) -> bool {
    forall|k: int|
        0 <= k < pixels.len() ==> {
            &&& 0 <= (#[trigger] pixels[k]).x < PANEL_WIDTH
            &&& 0 <= pixels[k].y < PANEL_HEIGHT
        }
}

proof fn lemma_icon_on_panel(icon: Seq<u16>, x_off: int, y_off: int)
    requires
        0 <= x_off <= PANEL_WIDTH - ICON_SIZE,
        0 <= y_off <= PANEL_HEIGHT - ICON_SIZE,
    ensures
        on_panel(icon_pixels(icon, x_off, y_off, ICON_PIXELS as int)),
{
    let pixels = icon_pixels(icon, x_off, y_off, ICON_PIXELS as int);
    assert forall|k: int| 0 <= k < pixels.len() implies 0 <= (#[trigger] pixels[k]).x
        < PANEL_WIDTH && 0 <= pixels[k].y < PANEL_HEIGHT by {
        assert(pixels.contains(pixels[k]));
        lemma_icon_pixels_exact(icon, x_off, y_off, pixels[k]);
    }
}

/// Whatever the weather screen shows, its icons lie on the panel.
pub proof fn lemma_weather_icons_on_panel(
    view: WeatherView,
    reading: Option<Reading>,
    clock: Clock,
)
    requires
        view.shows(reading, clock),
    ensures
        on_panel(view.temperature.icon@),
        on_panel(view.humidity.icon@),
        on_panel(view.time.icon@),
{
    lemma_icon_on_panel(THERMOMETER@, 6, 10);
    lemma_icon_on_panel(DROP@, 130, 10);
    lemma_icon_on_panel(CLOCK@, 50, 75);
}

} // verus!
