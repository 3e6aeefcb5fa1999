//! Core of a display color-temperature daemon: easing curves, schedule/phase
//! resolution, transition interpolation, and the persisted resume record.
//!
//! The daemon drives an ambient display temperature through a day/night cycle,
//! either from computed sunrise/sunset times or from fixed wake/bed clock
//! times, and interpolates temperature changes smoothly over a configurable
//! transition window. Everything here works on plain integer values; progress
//! and eased progress are carried in micro-units (millionths), and instants in
//! whole unix seconds.

pub mod clock;
pub mod config;
pub mod driver;
pub mod easing;
pub mod easing_parse;
pub mod scheduler;
pub mod state;
pub mod text;
pub mod transition;
