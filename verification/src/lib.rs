//! The verified core of an audio-reactive light controller: colour parsing and
//! formatting, speaker layouts, device packets and the small decisions around them.
use vstd::prelude::*;

pub mod text;
pub mod color;
pub mod govee;
pub mod spatial;
pub mod config;
pub mod capture;
pub mod select;
pub mod paths;
pub mod i18n;
pub mod error;
pub mod log;
pub mod engine;
pub mod tray;
pub mod urls;
pub mod wled;
pub mod shelly;
pub mod hue;
pub mod apps;
pub mod cli;
pub mod json;
pub mod supervise;
pub mod analysis;

verus! {
} // verus!
