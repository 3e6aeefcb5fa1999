//! Configuration snapshot consumed by the scheduler and the transition engine.
//!
//! Coordinates are carried as microdegrees (millionths of a degree) so that
//! validation and all downstream logic work on plain integers.

use vstd::prelude::*;
use vstd::string::StringExecFns;

verus! {

/// How the daily schedule is derived: from computed sunrise/sunset for a
/// geographic position, or from fixed wake/bed clock times.
#[derive(Clone, Copy, Debug, PartialEq, Eq, Structural)]
pub enum Mode {
    Auto,
    Fixed,
}

impl Default for Mode {
    fn default() -> (r: Self)
        ensures
            r == Mode::Auto,
    {
        Mode::Auto
    }
}

/// Geographic position in microdegrees: 1 degree = 1_000_000 microdegrees.
#[derive(Clone, Copy, Debug, PartialEq, Eq, Structural)]
pub struct Location {
    pub latitude_microdeg: i64,
    pub longitude_microdeg: i64,
}

impl Default for Location {
    fn default() -> (r: Self)
        ensures
            r.latitude_microdeg == 0,
            r.longitude_microdeg == 0,
    {
        Location { latitude_microdeg: 0, longitude_microdeg: 0 }
    }
}

/// Wake/bed clock times as "HH:MM" strings; validated when a
/// schedule is built from the snapshot.
#[derive(Clone, Debug)]
pub struct Schedule {
    pub wakeup: String,
    pub bedtime: String,
}

impl Default for Schedule {
    fn default() -> (r: Self)
        ensures
            r.wakeup@ == "07:00"@,
            r.bedtime@ == "22:00"@,
    {
        Schedule { wakeup: String::from_str("07:00"), bedtime: String::from_str("22:00") }
    }
}

/// Transition window length and the easing curve identifier.
#[derive(Clone, Debug)]
pub struct Transition {
    pub duration_minutes: u32,
    pub easing: String,
}

impl Default for Transition {
    fn default() -> (r: Self)
        ensures
            r.duration_minutes == 60,
            r.easing@ == "linear"@,
    {
        Transition { duration_minutes: 60, easing: String::from_str("linear") }
    }
}

/// Day and night target temperatures (Kelvin-like unit). Day is
/// conventionally the higher value but no ordering is enforced.
#[derive(Clone, Copy, Debug, PartialEq, Eq, Structural)]
pub struct Temperature {
    pub day: u16,
    pub night: u16,
}

impl Default for Temperature {
    fn default() -> (r: Self)
        ensures
            r.day == 6500,
            r.night == 1500,
    {
        Temperature { day: 6500, night: 1500 }
    }
}

/// Settings of the driving loop itself: tick cadence, status/state file
/// paths, and update deduplication.
#[derive(Clone, Debug)]
pub struct Daemon {
    pub tick_interval_seconds: u64,
    pub status_file: String,
    pub optimize_updates: bool,
    pub status_update_interval: u64,
    pub state_file: String,
}

impl Default for Daemon {
    fn default() -> (r: Self)
        ensures
            r.tick_interval_seconds == 5,
            r.status_file@ == "/tmp/rustysunset.status"@,
            r.optimize_updates == true,
            r.status_update_interval == 1,
            r.state_file@ == "~/.cache/rustysunset/state.toml"@,
    {
        Daemon {
            tick_interval_seconds: 5,
            status_file: String::from_str("/tmp/rustysunset.status"),
            optimize_updates: true,
            status_update_interval: 1,
            state_file: String::from_str("~/.cache/rustysunset/state.toml"),
        }
    }
}

/// Immutable per-run configuration snapshot.
#[derive(Clone, Debug)]
pub struct Config {
    pub mode: Mode,
    pub location: Location,
    pub schedule: Schedule,
    pub transition: Transition,
    pub temperature: Temperature,
    pub daemon: Daemon,
}

impl Default for Config {
    fn default() -> (r: Self)
        ensures
            r.mode == Mode::Auto,
            r.location.latitude_microdeg == 0,
            r.location.longitude_microdeg == 0,
            r.schedule.wakeup@ == "07:00"@,
            r.schedule.bedtime@ == "22:00"@,
            r.transition.duration_minutes == 60,
            r.transition.easing@ == "linear"@,
            r.temperature.day == 6500,
            r.temperature.night == 1500,
            r.daemon.tick_interval_seconds == 5,
            r.daemon.status_file@ == "/tmp/rustysunset.status"@,
            r.daemon.optimize_updates == true,
            r.daemon.status_update_interval == 1,
            r.daemon.state_file@ == "~/.cache/rustysunset/state.toml"@,
    {
        Config {
            mode: Mode::default(),
            location: Location::default(),
            schedule: Schedule::default(),
            transition: Transition::default(),
            temperature: Temperature::default(),
            daemon: Daemon::default(),
        }
    }
}

impl Config {
    /// Replaces daemon fields that a configuration file left at an unusable
    /// value (a zero tick interval, empty file paths) with the defaults.
    pub fn apply_daemon_fallbacks(&mut self)
        ensures
            final(self).daemon.tick_interval_seconds == if old(self).daemon.tick_interval_seconds
                == 0 {
                5u64
            } else {
                old(self).daemon.tick_interval_seconds
            },
            final(self).daemon.status_file@ == if old(self).daemon.status_file@.len() == 0 {
                "/tmp/rustysunset.status"@
            } else {
                old(self).daemon.status_file@
            },
            final(self).daemon.state_file@ == if old(self).daemon.state_file@.len() == 0 {
                "~/.cache/rustysunset/state.toml"@
            } else {
                old(self).daemon.state_file@
            },
            final(self).mode == old(self).mode,
            final(self).location == old(self).location,
            final(self).schedule.wakeup@ == old(self).schedule.wakeup@,
            final(self).schedule.bedtime@ == old(self).schedule.bedtime@,
            final(self).transition.duration_minutes == old(self).transition.duration_minutes,
            final(self).transition.easing@ == old(self).transition.easing@,
            final(self).temperature == old(self).temperature,
            final(self).daemon.optimize_updates == old(self).daemon.optimize_updates,
            final(self).daemon.status_update_interval == old(self).daemon.status_update_interval,
    {
        if self.daemon.tick_interval_seconds == 0 {
            self.daemon.tick_interval_seconds = 5;
        }
        if self.daemon.status_file.as_str().is_empty() {
            self.daemon.status_file = String::from_str("/tmp/rustysunset.status");
        }
        if self.daemon.state_file.as_str().is_empty() {
            self.daemon.state_file = String::from_str("~/.cache/rustysunset/state.toml");
        }
    }
}

} // verus!
