//! The decisions behind a small two-screen display: a weather screen that shows
//! temperature, humidity and the time of day, and a screen that animates a
//! quicksort over twenty coloured bars.
//!
//! Nothing here touches hardware. Every function turns plain values into plain
//! values: what to paint, what to wait for, what to remember. The program around
//! the library reads the sensor and the button, and sends pixels to the panel.

pub mod bars;
pub mod canvas;
pub mod clock;
pub mod color;
pub mod controller;
pub mod course;
pub mod icons;
pub mod laws;
pub mod rng;
pub mod sort;
pub mod sort_model;
pub mod text;
pub mod weather;
