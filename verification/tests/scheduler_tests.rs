//! The phase resolver, against solar events computed independently with
//! the same astronomical library, and against fixed clock schedules.

use candela::config::{Config, Mode};
use candela::scheduler::{fixed_next_from, microdeg_decimal, next_day, LocalStamp, Phase, Schedule};
use chrono::{DateTime, Duration, Local, TimeZone, Timelike};

/// Config with coordinates aligned to the local timezone so solar events
/// fall on the expected local date regardless of where tests run.
fn auto_test_config() -> Config {
    let mut config = Config::default();
    let offset_secs = Local::now().offset().local_minus_utc();
    let longitude = (f64::from(offset_secs) / 3600.0 * 15.0).clamp(-180.0, 180.0);
    config.location.latitude_microdeg = 48_000_000;
    config.location.longitude_microdeg = (longitude * 1_000_000.0) as i64;
    config
}

/// Sunrise and sunset instants for the local date of `now`, computed with
/// the astronomical library directly.
fn sun_events(config: &Config, now: DateTime<Local>) -> (i64, i64) {
    let lat = config.location.latitude_microdeg as f64 / 1_000_000.0;
    let lon = config.location.longitude_microdeg as f64 / 1_000_000.0;
    let coord = sunrise::Coordinates::new(lat, lon).unwrap();
    let solar_day = sunrise::SolarDay::new(coord, now.date_naive());
    (
        solar_day.event_time(sunrise::SolarEvent::Sunrise).timestamp(),
        solar_day.event_time(sunrise::SolarEvent::Sunset).timestamp(),
    )
}

fn stamp(ts: i64) -> LocalStamp {
    LocalStamp::from_unix(ts).unwrap()
}

#[test]
fn auto_phase_after_sunset_is_night() {
    let config = auto_test_config();
    let schedule = Schedule::new(config.clone()).expect("valid config");

    let base = Local.with_ymd_and_hms(2024, 6, 1, 12, 0, 0).unwrap();
    let (_, sunset) = sun_events(&config, base);
    let after_sunset = sunset + 2 * 3600;

    assert_eq!(schedule.current_phase_at(&stamp(after_sunset)), Phase::Night);
}

#[test]
fn auto_phase_after_sunrise_is_transitioning_to_day() {
    let mut config = auto_test_config();
    config.transition.duration_minutes = 60;
    let schedule = Schedule::new(config.clone()).expect("valid config");

    let base = Local.with_ymd_and_hms(2024, 6, 1, 12, 0, 0).unwrap();
    let (sunrise_ts, _) = sun_events(&config, base);
    let half_transition = i64::from(config.transition.duration_minutes / 2) * 60;
    let during_transition = sunrise_ts + half_transition;

    assert_eq!(
        schedule.current_phase_at(&stamp(during_transition)),
        Phase::TransitioningToDay
    );
}

#[test]
fn auto_phase_midday_is_day() {
    let config = auto_test_config();
    let schedule = Schedule::new(config.clone()).expect("valid config");

    let base = Local.with_ymd_and_hms(2024, 6, 1, 12, 0, 0).unwrap();
    let (sunrise_ts, sunset_ts) = sun_events(&config, base);
    let midpoint = sunrise_ts + (sunset_ts - sunrise_ts) / 2;

    assert_eq!(schedule.current_phase_at(&stamp(midpoint)), Phase::Day);
}

#[test]
fn fixed_schedule_rejects_invalid_time() {
    let mut config = Config::default();
    config.schedule.wakeup = "25:00".to_string();

    let result = Schedule::new(config);

    assert!(result.is_err());
}

#[test]
fn auto_phase_at_sunset_is_transitioning_to_night() {
    let mut config = auto_test_config();
    config.transition.duration_minutes = 60;
    let schedule = Schedule::new(config.clone()).expect("valid config");

    let base = Local.with_ymd_and_hms(2024, 6, 1, 12, 0, 0).unwrap();
    let (_, sunset) = sun_events(&config, base);

    assert_eq!(
        schedule.current_phase_at(&stamp(sunset)),
        Phase::TransitioningToNight
    );
}

#[test]
fn auto_phase_at_transition_end_is_night() {
    let mut config = auto_test_config();
    config.transition.duration_minutes = 60;
    let schedule = Schedule::new(config.clone()).expect("valid config");

    let base = Local.with_ymd_and_hms(2024, 6, 1, 12, 0, 0).unwrap();
    let (_, sunset) = sun_events(&config, base);
    let end = sunset + i64::from(config.transition.duration_minutes) * 60;

    assert_eq!(schedule.current_phase_at(&stamp(end)), Phase::Night);
}

#[test]
fn auto_phase_at_sunrise_is_transitioning_to_day() {
    let config = auto_test_config();
    let schedule = Schedule::new(config.clone()).expect("valid config");

    let base = Local.with_ymd_and_hms(2024, 6, 1, 12, 0, 0).unwrap();
    let (sunrise_ts, _) = sun_events(&config, base);

    assert_eq!(
        schedule.current_phase_at(&stamp(sunrise_ts)),
        Phase::TransitioningToDay
    );
}

#[test]
fn fixed_phase_boundaries() {
    let mut config = Config::default();
    config.mode = Mode::Fixed;
    config.schedule.wakeup = "07:00".to_string();
    config.schedule.bedtime = "22:00".to_string();
    config.transition.duration_minutes = 60;
    let schedule = Schedule::new(config).expect("valid config");

    let day = Local.with_ymd_and_hms(2024, 6, 1, 12, 0, 0).unwrap();

    let wakeup = day.with_hour(7).unwrap().with_minute(0).unwrap();
    let wakeup_end = wakeup + Duration::minutes(60);
    let bedtime = day.with_hour(22).unwrap().with_minute(0).unwrap();
    let bedtime_start = bedtime - Duration::minutes(60);

    assert_eq!(
        schedule.current_phase_at(&stamp(wakeup.timestamp())),
        Phase::TransitioningToDay
    );
    assert_eq!(
        schedule.current_phase_at(&stamp(wakeup_end.timestamp())),
        Phase::Day
    );
    assert_eq!(
        schedule.current_phase_at(&stamp(bedtime_start.timestamp())),
        Phase::TransitioningToNight
    );
    assert_eq!(
        schedule.current_phase_at(&stamp(bedtime.timestamp())),
        Phase::Night
    );
}

// --- next_transition_start tests (auto mode) ---

#[test]
fn next_transition_during_day_is_sunset() {
    let config = auto_test_config();
    let schedule = Schedule::new(config.clone()).expect("valid config");

    let base = Local.with_ymd_and_hms(2024, 6, 1, 12, 0, 0).unwrap();
    let (_, sunset) = sun_events(&config, base);

    let result = schedule.next_transition_start(&stamp(base.timestamp()));
    assert_eq!(result, Some(sunset));
}

#[test]
fn next_transition_during_night_after_sunset_is_tomorrow_sunrise() {
    let mut config = auto_test_config();
    config.transition.duration_minutes = 30;
    let schedule = Schedule::new(config.clone()).expect("valid config");

    let base = Local.with_ymd_and_hms(2024, 6, 1, 12, 0, 0).unwrap();
    let (_, sunset) = sun_events(&config, base);
    let night = sunset + 2 * 3600;

    let tomorrow_noon = Local.with_ymd_and_hms(2024, 6, 2, 12, 0, 0).unwrap();
    let (tomorrow_sunrise, _) = sun_events(&config, tomorrow_noon);

    let result = schedule.next_transition_start(&stamp(night));
    assert_eq!(result, Some(tomorrow_sunrise));
}

#[test]
fn next_transition_during_night_before_sunrise_is_today_sunrise() {
    let config = auto_test_config();
    let schedule = Schedule::new(config.clone()).expect("valid config");

    let base = Local.with_ymd_and_hms(2024, 6, 1, 12, 0, 0).unwrap();
    let (sunrise_ts, _) = sun_events(&config, base);
    let early_morning = base.with_hour(2).unwrap().with_minute(0).unwrap();

    assert_eq!(
        schedule.current_phase_at(&stamp(early_morning.timestamp())),
        Phase::Night
    );

    let result = schedule.next_transition_start(&stamp(early_morning.timestamp()));
    assert_eq!(result, Some(sunrise_ts));
}

#[test]
fn next_transition_during_transition_is_none() {
    let mut config = auto_test_config();
    config.transition.duration_minutes = 60;
    let schedule = Schedule::new(config.clone()).expect("valid config");

    let base = Local.with_ymd_and_hms(2024, 6, 1, 12, 0, 0).unwrap();
    let (_, sunset) = sun_events(&config, base);
    let during = sunset + 15 * 60;

    assert_eq!(
        schedule.current_phase_at(&stamp(during)),
        Phase::TransitioningToNight
    );
    assert_eq!(schedule.next_transition_start(&stamp(during)), None);
}

// --- next_transition_start tests (fixed mode) ---

fn fixed_test_config() -> Config {
    let mut config = Config::default();
    config.mode = Mode::Fixed;
    config.schedule.wakeup = "07:00".to_string();
    config.schedule.bedtime = "22:00".to_string();
    config.transition.duration_minutes = 60;
    config
}

#[test]
fn fixed_next_transition_during_day() {
    let config = fixed_test_config();
    let schedule = Schedule::new(config).expect("valid config");

    let day = Local.with_ymd_and_hms(2024, 6, 1, 12, 0, 0).unwrap();
    assert_eq!(schedule.current_phase_at(&stamp(day.timestamp())), Phase::Day);

    let expected = day.with_hour(21).unwrap().with_minute(0).unwrap();
    assert_eq!(
        schedule.next_transition_start(&stamp(day.timestamp())),
        Some(expected.timestamp())
    );
}

#[test]
fn fixed_next_transition_night_before_wakeup() {
    let config = fixed_test_config();
    let schedule = Schedule::new(config).expect("valid config");

    let early = Local.with_ymd_and_hms(2024, 6, 1, 3, 0, 0).unwrap();
    assert_eq!(schedule.current_phase_at(&stamp(early.timestamp())), Phase::Night);

    let expected = early.with_hour(7).unwrap().with_minute(0).unwrap();
    assert_eq!(
        schedule.next_transition_start(&stamp(early.timestamp())),
        Some(expected.timestamp())
    );
}

#[test]
fn fixed_next_transition_night_after_bedtime() {
    let config = fixed_test_config();
    let schedule = Schedule::new(config).expect("valid config");

    let late = Local.with_ymd_and_hms(2024, 6, 1, 23, 0, 0).unwrap();
    assert_eq!(schedule.current_phase_at(&stamp(late.timestamp())), Phase::Night);

    let expected = Local.with_ymd_and_hms(2024, 6, 2, 7, 0, 0).unwrap();
    assert_eq!(
        schedule.next_transition_start(&stamp(late.timestamp())),
        Some(expected.timestamp())
    );
}

#[test]
fn fixed_next_transition_during_transition_is_none() {
    let config = fixed_test_config();
    let schedule = Schedule::new(config).expect("valid config");

    let wakeup = Local.with_ymd_and_hms(2024, 6, 1, 7, 30, 0).unwrap();
    assert_eq!(
        schedule.current_phase_at(&stamp(wakeup.timestamp())),
        Phase::TransitioningToDay
    );
    assert_eq!(schedule.next_transition_start(&stamp(wakeup.timestamp())), None);
}

// --- windows and target temperatures ---

#[test]
fn auto_window_during_evening_transition() {
    let mut config = auto_test_config();
    config.transition.duration_minutes = 60;
    let schedule = Schedule::new(config.clone()).expect("valid config");

    let base = Local.with_ymd_and_hms(2024, 6, 1, 12, 0, 0).unwrap();
    let (_, sunset) = sun_events(&config, base);
    let during = sunset + 15 * 60;

    let window = schedule
        .transition_window_at(&stamp(during))
        .expect("inside the evening window");
    assert_eq!(window.start, sunset);
    assert_eq!(window.start_temp, 6500);
    assert_eq!(window.target_temp, 1500);
}

#[test]
fn auto_window_absent_at_midday() {
    let mut config = auto_test_config();
    config.transition.duration_minutes = 60;
    let schedule = Schedule::new(config.clone()).expect("valid config");

    let base = Local.with_ymd_and_hms(2024, 6, 1, 12, 0, 0).unwrap();
    assert!(schedule.transition_window_at(&stamp(base.timestamp())).is_none());
}

#[test]
fn window_absent_for_zero_duration() {
    let mut config = auto_test_config();
    config.transition.duration_minutes = 0;
    let schedule = Schedule::new(config.clone()).expect("valid config");

    let base = Local.with_ymd_and_hms(2024, 6, 1, 12, 0, 0).unwrap();
    let (_, sunset) = sun_events(&config, base);
    assert!(schedule.transition_window_at(&stamp(sunset)).is_none());
}

#[test]
fn fixed_window_during_morning_transition() {
    let config = fixed_test_config();
    let schedule = Schedule::new(config).expect("valid config");

    let morning = Local.with_ymd_and_hms(2024, 6, 1, 7, 30, 0).unwrap();
    let window = schedule
        .transition_window_at(&stamp(morning.timestamp()))
        .expect("inside the morning window");
    let wakeup = Local.with_ymd_and_hms(2024, 6, 1, 7, 0, 0).unwrap();
    assert_eq!(window.start, wakeup.timestamp());
    assert_eq!(window.start_temp, 1500);
    assert_eq!(window.target_temp, 6500);
}

#[test]
fn target_temperature_follows_the_phase() {
    let config = fixed_test_config();
    let schedule = Schedule::new(config).expect("valid config");

    let midday = Local.with_ymd_and_hms(2024, 6, 1, 12, 0, 0).unwrap();
    let midnight = Local.with_ymd_and_hms(2024, 6, 1, 1, 0, 0).unwrap();
    assert_eq!(schedule.target_temperature_at(&stamp(midday.timestamp())), 6500);
    assert_eq!(schedule.target_temperature_at(&stamp(midnight.timestamp())), 1500);
}

#[test]
fn schedule_rejects_bad_coordinates() {
    let mut config = Config::default();
    config.location.latitude_microdeg = 95_000_000;
    assert!(Schedule::new(config).is_err());
}

#[test]
fn hhmm_parsing() {
    assert_eq!(candela::scheduler::parse_hhmm("07:00"), Some(7 * 3600));
    assert_eq!(candela::scheduler::parse_hhmm("23:59"), Some(23 * 3600 + 59 * 60));
    assert_eq!(candela::scheduler::parse_hhmm("7:5"), Some(7 * 3600 + 5 * 60));
    assert_eq!(candela::scheduler::parse_hhmm("24:00"), None);
    assert_eq!(candela::scheduler::parse_hhmm("12:60"), None);
    assert_eq!(candela::scheduler::parse_hhmm("noon"), None);
    assert_eq!(candela::scheduler::parse_hhmm(""), None);
    assert_eq!(candela::scheduler::parse_hhmm("12:34:56"), None);
}

#[test]
fn schedule_rejects_invalid_bedtime() {
    let mut config = Config::default();
    config.schedule.bedtime = "22:61".to_string();
    let result = Schedule::new(config);
    assert!(result.is_err());
}

#[test]
fn microdegrees_format_as_decimal_degrees() {
    assert_eq!(microdeg_decimal(48_000_000), "48.000000");
    assert_eq!(microdeg_decimal(-500_000), "-0.500000");
    assert_eq!(microdeg_decimal(9_120_000), "9.120000");
    assert_eq!(microdeg_decimal(-180_000_000), "-180.000000");
    assert_eq!(microdeg_decimal(123), "0.000123");
}

#[test]
fn next_day_handles_month_and_leap_boundaries() {
    assert_eq!(next_day(2024, 2, 28), (2024, 2, 29));
    assert_eq!(next_day(2023, 2, 28), (2023, 3, 1));
    assert_eq!(next_day(2024, 6, 30), (2024, 7, 1));
    assert_eq!(next_day(2024, 12, 31), (2025, 1, 1));
}

#[test]
fn fixed_mode_does_not_validate_coordinates() {
    let mut config = fixed_test_config();
    config.location.latitude_microdeg = 95_000_000;
    assert!(Schedule::new(config).is_ok());
}

#[test]
fn fixed_next_pick_follows_the_phase() {
    assert_eq!(
        fixed_next_from(Phase::Day, Some(79_200), None, None, false, 3_600),
        Some(75_600)
    );
    assert_eq!(
        fixed_next_from(Phase::Night, None, Some(25_200), Some(111_600), false, 3_600),
        Some(25_200)
    );
    assert_eq!(
        fixed_next_from(Phase::Night, None, Some(25_200), Some(111_600), true, 3_600),
        Some(111_600)
    );
    assert_eq!(
        fixed_next_from(Phase::TransitioningToDay, Some(79_200), Some(25_200), Some(111_600), false, 3_600),
        None
    );
    assert_eq!(fixed_next_from(Phase::Day, None, None, None, false, 3_600), None);
}
