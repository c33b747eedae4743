//! Event-to-action engine for gamepad input: resolves button chords with auto-repeat, shapes
//! stick input into arrow, volume, brightness, mouse and scroll actions, and schedules
//! repeats, conditioned on the application in the foreground.

pub mod action;
pub mod bitmask;
pub mod engine;
pub mod laws;
pub mod profile;
pub mod stick;
