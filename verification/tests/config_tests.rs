//! Configuration defaults and the driving-loop decision helpers.

use candela::config::{Config, Daemon, Location, Mode, Schedule, Temperature, Transition};
use candela::driver::{control_file_from_status, initial_temperature, should_set_temperature, status_text};
use candela::scheduler::Phase;
use candela::driver::{parse_status_line, StatusField};
use candela::state::State;

#[test]
fn mode_default_is_auto() {
    assert_eq!(Mode::default(), Mode::Auto);
}

#[test]
fn temperature_default_values() {
    let temp = Temperature::default();
    assert_eq!(temp.day, 6500);
    assert_eq!(temp.night, 1500);
}

#[test]
fn daemon_default_values() {
    let daemon = Daemon::default();
    assert_eq!(daemon.tick_interval_seconds, 5);
    assert_eq!(daemon.status_file, "/tmp/rustysunset.status");
    assert_eq!(daemon.optimize_updates, true);
    assert_eq!(daemon.status_update_interval, 1);
    assert_eq!(daemon.state_file, "~/.cache/rustysunset/state.toml");
}


#[test]
fn location_default_is_zero_coordinates() {
    let loc = Location::default();
    assert_eq!(loc.latitude_microdeg, 0);
    assert_eq!(loc.longitude_microdeg, 0);
}

#[test]
fn schedule_default_values() {
    let sched = Schedule::default();
    assert_eq!(sched.wakeup, "07:00");
    assert_eq!(sched.bedtime, "22:00");
}

#[test]
fn transition_default_values() {
    let trans = Transition::default();
    assert_eq!(trans.duration_minutes, 60);
    assert_eq!(trans.easing, "linear");
}

#[test]
fn config_default_all_fields() {
    let config = Config::default();
    assert_eq!(config.mode, Mode::Auto);
    assert_eq!(config.location.latitude_microdeg, 0);
    assert_eq!(config.temperature.day, 6500);
}

#[test]
fn optimize_skips_same_temperature() {
    assert!(!should_set_temperature(true, Some(2000), 2000));
}

#[test]
fn optimize_sets_when_temperature_changes() {
    assert!(should_set_temperature(true, Some(2000), 2100));
}

#[test]
fn always_sets_when_optimization_disabled() {
    assert!(should_set_temperature(false, Some(2000), 2000));
}

#[test]
fn config_fallbacks_fill_unusable_daemon_fields() {
    let mut config = Config::default();
    config.daemon.tick_interval_seconds = 0;
    config.daemon.status_file = String::new();
    config.daemon.state_file = String::new();
    config.apply_daemon_fallbacks();
    assert_eq!(config.daemon.tick_interval_seconds, 5);
    assert_eq!(config.daemon.status_file, "/tmp/rustysunset.status");
    assert_eq!(config.daemon.state_file, "~/.cache/rustysunset/state.toml");
}

#[test]
fn control_file_replaces_the_extension() {
    assert_eq!(control_file_from_status("/tmp/rustysunset.status"), "/tmp/rustysunset.control");
    assert_eq!(control_file_from_status("status.txt"), "status.control");
}

#[test]
fn control_file_appends_when_no_extension() {
    assert_eq!(control_file_from_status("/run/daemon-status"), "/run/daemon-status.control");
    assert_eq!(control_file_from_status("/tmp/.status"), "/tmp/.status.control");
}

#[test]
fn initial_temperature_resumes_fresh_state() {
    let record = State {
        transition_start_temp: 6500,
        transition_start_timestamp: 10_000,
        elapsed_seconds: 1800,
        target_temp: 1500,
    };
    // age = 12_000 - (10_000 + 1800) = 200 < 2 * 3600
    let temp = initial_temperature(Some(&record), 12_000, 60, "linear", 6500);
    assert_eq!(temp, 4000);
}

#[test]
fn initial_temperature_discards_stale_state() {
    let record = State {
        transition_start_temp: 6500,
        transition_start_timestamp: 10_000,
        elapsed_seconds: 1800,
        target_temp: 1500,
    };
    // age = 30_000 - 11_800 = 18_200 >= 2 * 3600
    let temp = initial_temperature(Some(&record), 30_000, 60, "linear", 6500);
    assert_eq!(temp, 6500);
}

#[test]
fn initial_temperature_without_state_is_the_fallback() {
    assert_eq!(initial_temperature(None, 12_000, 60, "linear", 6500), 6500);
}

#[test]
fn status_text_layout() {
    let text = status_text(4000, Phase::TransitioningToNight, 1500, 430_000);
    assert_eq!(
        text,
        "temp=4000\nphase=transitioning_to_night\ntarget=1500\nprogress=0.43\n"
    );
    let done = status_text(1500, Phase::Night, 1500, 1_000_000);
    assert_eq!(done, "temp=1500\nphase=night\ntarget=1500\nprogress=1.00\n");
}

#[test]
fn status_lines_parse_back() {
    assert_eq!(parse_status_line("temp=4000"), Some(StatusField::Temp(4000)));
    assert_eq!(
        parse_status_line("phase=transitioning_to_night"),
        Some(StatusField::PhaseName("transitioning_to_night".to_string()))
    );
    assert_eq!(parse_status_line("target=1500"), Some(StatusField::Target(1500)));
    assert_eq!(parse_status_line("progress=0.43"), Some(StatusField::Progress(430_000)));
    assert_eq!(parse_status_line("temp=70000"), None);
    assert_eq!(parse_status_line("progress=soon"), None);
    assert_eq!(parse_status_line("nonsense"), None);
}
