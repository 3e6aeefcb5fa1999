//! The persisted record: resumed temperature, age arithmetic, and the
//! record codec.

use candela::state::{calculate_temperature_from_state, decode_state, State};

#[test]
fn calculate_temperature_uses_saved_state_mid_transition() {
    let state = State {
        transition_start_temp: 6500,
        transition_start_timestamp: 0,
        elapsed_seconds: 1800,
        target_temp: 1500,
    };

    let temp = calculate_temperature_from_state(&state, 3600, "linear");

    assert_eq!(temp, 4000);
}

#[test]
fn calculate_temperature_returns_target_when_elapsed_exceeds_duration() {
    let state = State {
        transition_start_temp: 6500,
        transition_start_timestamp: 0,
        elapsed_seconds: 4000,
        target_temp: 1500,
    };

    let temp = calculate_temperature_from_state(&state, 3600, "linear");

    assert_eq!(temp, 1500);
}

#[test]
fn easing_applied_for_ease_in() {
    let state = State {
        transition_start_temp: 6500,
        transition_start_timestamp: 0,
        elapsed_seconds: 1800,
        target_temp: 1500,
    };

    let temp = calculate_temperature_from_state(&state, 3600, "ease_in");

    // ease_in at 0.5 progress -> eased 0.25
    assert_eq!(temp, 5250);
}

#[test]
fn easing_applied_for_ease_out() {
    let state = State {
        transition_start_temp: 6500,
        transition_start_timestamp: 0,
        elapsed_seconds: 1800,
        target_temp: 1500,
    };

    let temp = calculate_temperature_from_state(&state, 3600, "ease_out");

    // ease_out at 0.5 progress -> eased 0.75
    assert_eq!(temp, 2750);
}

#[test]
fn easing_applied_for_ease_in_out() {
    let state = State {
        transition_start_temp: 6500,
        transition_start_timestamp: 0,
        elapsed_seconds: 1800,
        target_temp: 1500,
    };

    let temp = calculate_temperature_from_state(&state, 3600, "ease_in_out");

    // ease_in_out at 0.5 progress -> eased 0.5 (linear at midpoint)
    assert_eq!(temp, 4000);
}

#[test]
fn easing_unknown_defaults_to_linear() {
    let state = State {
        transition_start_temp: 6500,
        transition_start_timestamp: 0,
        elapsed_seconds: 1800,
        target_temp: 1500,
    };

    let temp = calculate_temperature_from_state(&state, 3600, "unknown");

    // Unknown easing should default to linear
    assert_eq!(temp, 4000);
}

#[test]
fn state_age_seconds_calculates_correctly() {
    let now = std::time::SystemTime::now()
        .duration_since(std::time::UNIX_EPOCH)
        .unwrap()
        .as_secs();

    let state = State {
        transition_start_temp: 6500,
        transition_start_timestamp: now - 100,
        elapsed_seconds: 50,
        target_temp: 1500,
    };

    let age = state.age_seconds();

    // Age should be approximately the time since (timestamp + elapsed)
    // which is now - (now - 100 + 50) = 50 seconds
    assert!(age >= 49 && age <= 51);
}

#[test]
fn age_seconds_at_is_exact() {
    let state = State {
        transition_start_temp: 6500,
        transition_start_timestamp: 1000,
        elapsed_seconds: 50,
        target_temp: 1500,
    };
    assert_eq!(state.age_seconds_at(1100), 50);
    assert_eq!(state.age_seconds_at(1050), 0);
    // clock skew saturates at zero
    assert_eq!(state.age_seconds_at(900), 0);
}

#[test]
fn encode_produces_key_value_lines() {
    let state = State {
        transition_start_temp: 6500,
        transition_start_timestamp: 1234567890,
        elapsed_seconds: 1800,
        target_temp: 1500,
    };
    let text = state.encode();
    assert_eq!(
        text,
        "transition_start_temp = 6500\ntransition_start_timestamp = 1234567890\nelapsed_seconds = 1800\ntarget_temp = 1500\n"
    );
}

#[test]
fn codec_round_trip() {
    let state = State {
        transition_start_temp: 6500,
        transition_start_timestamp: 1234567890,
        elapsed_seconds: 1800,
        target_temp: 1500,
    };
    let decoded = decode_state(state.encode().as_str());
    assert_eq!(decoded, Some(state));
}

#[test]
fn codec_round_trip_extremes() {
    let state = State {
        transition_start_temp: 0,
        transition_start_timestamp: u64::MAX,
        elapsed_seconds: 0,
        target_temp: u16::MAX,
    };
    let decoded = decode_state(state.encode().as_str());
    assert_eq!(decoded, Some(state));
}

#[test]
fn decode_rejects_corrupt_records() {
    assert_eq!(decode_state(""), None);
    assert_eq!(decode_state("transition_start_temp = \n"), None);
    assert_eq!(decode_state("transition_start_temp = 6500\n"), None);
    assert_eq!(
        decode_state(
            "transition_start_temp = 70000\ntransition_start_timestamp = 0\nelapsed_seconds = 0\ntarget_temp = 1500\n"
        ),
        None
    );
    assert_eq!(
        decode_state(
            "transition_start_temp = 6500\ntransition_start_timestamp = 99999999999999999999999\nelapsed_seconds = 0\ntarget_temp = 1500\n"
        ),
        None
    );
}
