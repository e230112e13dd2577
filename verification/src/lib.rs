//! DJLED engine: the logic of an audio- and MIDI-reactive LED wall.
//!
//! Everything here works on plain values. Devices, sockets, files, the clock
//! and floating-point signal processing live in the application around this
//! library; what arrives here is what they delivered, and what leaves is what
//! they are to do next.

pub mod capture;
pub mod cli;
pub mod color;
pub mod display;
pub mod dsp;
pub mod hotkeys;
pub mod link;
pub mod logging;
pub mod midi;
pub mod order;
pub mod presets;
pub mod probe;
pub mod run;
pub mod show;
pub mod source;
pub mod stack;
pub mod text;
pub mod tray;
pub mod ui;
pub mod web;
