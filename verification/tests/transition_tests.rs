//! The transition engine: update, schedule alignment, and progress.
//! Monotonic and wall-clock readings are passed explicitly as seconds.

use candela::config::Config;
use candela::transition::Transition;

const ONE: u64 = 1_000_000;

#[test]
fn update_sets_progress_complete_when_at_target() {
    let config = Config::default();
    let mut transition = Transition::new_with_temp(config, 1500);

    transition.update(1500, 0, 0);

    assert_eq!(transition.current_temperature(), 1500);
    assert_eq!(transition.progress(0), ONE);
    assert!(!transition.is_in_transition());
}

#[test]
fn update_completes_after_elapsed_duration() {
    let mut config = Config::default();
    config.transition.duration_minutes = 1;
    let mut transition = Transition::new_with_temp(config, 6500);

    transition.update(1500, 0, 0);
    transition.update(1500, 60, 60);

    assert_eq!(transition.current_temperature(), 1500);
    assert_eq!(transition.progress(60), ONE);
    assert!(!transition.is_in_transition());
}

#[test]
fn easing_linear_at_halfway() {
    let mut config = Config::default();
    config.transition.duration_minutes = 1;
    config.transition.easing = "linear".to_string();
    let mut transition = Transition::new_with_temp(config, 6500);

    transition.update(1500, 0, 0);
    transition.update(1500, 30, 30);

    assert_eq!(transition.current_temperature(), 4000);
}

#[test]
fn easing_ease_in_at_halfway() {
    let mut config = Config::default();
    config.transition.duration_minutes = 1;
    config.transition.easing = "ease_in".to_string();
    let mut transition = Transition::new_with_temp(config, 6500);

    transition.update(1500, 0, 0);
    transition.update(1500, 30, 30);

    assert_eq!(transition.current_temperature(), 5250);
}

#[test]
fn easing_ease_out_at_halfway() {
    let mut config = Config::default();
    config.transition.duration_minutes = 1;
    config.transition.easing = "ease_out".to_string();
    let mut transition = Transition::new_with_temp(config, 6500);

    transition.update(1500, 0, 0);
    transition.update(1500, 30, 30);

    assert_eq!(transition.current_temperature(), 2750);
}

#[test]
fn easing_ease_in_out_at_halfway() {
    let mut config = Config::default();
    config.transition.duration_minutes = 1;
    config.transition.easing = "ease_in_out".to_string();
    let mut transition = Transition::new_with_temp(config, 6500);

    transition.update(1500, 0, 0);
    transition.update(1500, 30, 30);

    assert_eq!(transition.current_temperature(), 4000);
}

#[test]
fn align_with_schedule_sets_expected_temperature() {
    let mut config = Config::default();
    config.transition.duration_minutes = 60;
    config.transition.easing = "linear".to_string();
    let mut transition = Transition::new_with_temp(config, 6500);

    transition.align_with_schedule(6500, 1500, 1800, 10_000, 20_000);

    assert_eq!(transition.current_temperature(), 4000);
}

#[test]
fn align_matches_resume_computation() {
    // the engine's alignment and the resume computation agree on the
    // same (start, target, elapsed, duration, easing) inputs
    for elapsed in [0u64, 600, 1800, 3599, 3600, 9000] {
        let mut config = Config::default();
        config.transition.duration_minutes = 60;
        config.transition.easing = "smooth".to_string();
        let mut transition = Transition::new_with_temp(config, 6500);
        transition.align_with_schedule(6500, 1500, elapsed, 100_000, 200_000);

        let record = candela::state::State {
            transition_start_temp: 6500,
            transition_start_timestamp: 0,
            elapsed_seconds: elapsed,
            target_temp: 1500,
        };
        let resumed = candela::state::calculate_temperature_from_state(&record, 3600, "smooth");

        assert_eq!(transition.current_temperature(), resumed);
    }
}

#[test]
fn update_twice_with_same_target_is_stable() {
    let mut config = Config::default();
    config.transition.duration_minutes = 60;
    let mut transition = Transition::new_with_temp(config, 6500);

    transition.update(1500, 100, 100);
    let first = transition.current_temperature();
    transition.update(1500, 100, 100);

    assert_eq!(transition.current_temperature(), first);
}

#[test]
fn zero_duration_snaps_to_target() {
    let mut config = Config::default();
    config.transition.duration_minutes = 0;
    let mut transition = Transition::new_with_temp(config, 6500);

    transition.update(1500, 5, 5);

    assert_eq!(transition.current_temperature(), 1500);
    assert!(!transition.is_in_transition());
    assert_eq!(transition.progress(5), ONE);
}

#[test]
fn retarget_rebases_from_current_temperature() {
    let mut config = Config::default();
    config.transition.duration_minutes = 60;
    let mut transition = Transition::new_with_temp(config, 6500);

    transition.update(1500, 0, 0);
    transition.update(1500, 1800, 1800);
    assert_eq!(transition.current_temperature(), 4000);

    // a different target restarts the interpolation from 4000
    transition.update(6500, 1800, 1800);
    assert_eq!(transition.current_temperature(), 4000);
    assert_eq!(transition.transition_start_temp(), 4000);
    assert_eq!(transition.target_temperature(), 6500);
    assert!(transition.is_in_transition());
}

#[test]
fn align_backdates_the_wall_stamp() {
    let mut config = Config::default();
    config.transition.duration_minutes = 60;
    let mut transition = Transition::new_with_temp(config, 6500);

    transition.align_with_schedule(6500, 1500, 1800, 50_000, 90_000);

    assert_eq!(transition.transition_start_timestamp(), 88_200);
    assert!(transition.is_in_transition());
}

#[test]
fn progress_is_raw_time_share() {
    let mut config = Config::default();
    config.transition.duration_minutes = 60;
    config.transition.easing = "ease_in".to_string();
    let mut transition = Transition::new_with_temp(config, 6500);

    transition.update(1500, 0, 0);
    // progress is time-based, independent of the easing curve
    assert_eq!(transition.progress(900), 250_000);
    assert_eq!(transition.progress(1800), 500_000);
    assert_eq!(transition.progress(7200), ONE);
}

#[test]
fn idle_engine_has_all_temperatures_settled() {
    let mut config = Config::default();
    config.transition.duration_minutes = 1;
    let mut transition = Transition::new_with_temp(config, 6500);

    transition.update(1500, 0, 0);
    transition.update(1500, 60, 60);

    assert!(!transition.is_in_transition());
    assert_eq!(transition.current_temperature(), 1500);
    assert_eq!(transition.target_temperature(), 1500);
    assert_eq!(transition.transition_start_temp(), 1500);
}

#[test]
fn align_past_the_window_settles_idle() {
    let mut config = Config::default();
    config.transition.duration_minutes = 60;
    let mut transition = Transition::new_with_temp(config, 6500);

    transition.align_with_schedule(6500, 1500, 9_000, 10_000, 20_000);

    assert!(!transition.is_in_transition());
    assert_eq!(transition.current_temperature(), 1500);
    assert_eq!(transition.target_temperature(), 1500);
    assert_eq!(transition.transition_start_temp(), 1500);
}
