//! The transition engine: owns the current temperature and advances it
//! toward a target over the configured window, using the configured easing
//! curve.
//!
//! The engine takes the current time as explicit arguments: `now_mono` is a
//! caller-supplied monotonic reading in seconds (any fixed origin), used for
//! elapsed-time math; `now_wall` is wall-clock unix seconds, recorded for
//! the persisted resume record.

use crate::config::Config;
use crate::easing::{clamp_i, eased_micro, easing_wf, Easing, SCALE};
use crate::easing_parse::{parse_easing, parse_easing_spec};
use vstd::prelude::*;

verus! {

/// `a - b`, floored at zero.
pub open spec fn sat_sub(a: int, b: int) -> int {
    if a >= b {
        a - b
    } else {
        0
    }
}

/// Division by a positive divisor rounding to nearest, ties away from zero.
pub open spec fn rdiv_half(a: int, b: int) -> int {
    if b <= 0 {
        0
    } else if a >= 0 {
        (a + b / 2) / b
    } else {
        -((-a + b / 2) / b)
    }
}

/// Raw time progress through a window, in micro-units, clamped to 1.
pub open spec fn progress_micro(elapsed: int, duration: int) -> int {
    if duration <= 0 || elapsed >= duration {
        SCALE as int
    } else {
        (elapsed * (SCALE as int)) / duration
    }
}

/// The interpolated temperature: the target at or beyond the window's end,
/// otherwise the start plus the eased share of the span, rounded to the
/// nearest unit and clamped between the two endpoint temperatures.
pub open spec fn interp_micro(start: int, target: int, elapsed: int, duration: int, e: Easing) -> int {
    if duration <= 0 || elapsed >= duration {
        target
    } else {
        let t = (elapsed * (SCALE as int)) / duration;
        let eased = eased_micro(e, t);
        let delta = rdiv_half((target - start) * eased, SCALE as int);
        let lo = if start <= target {
            start
        } else {
            target
        };
        let hi = if start <= target {
            target
        } else {
            start
        };
        clamp_i(start + delta, lo, hi)
    }
}

/// The interpolated temperature always lies between the two endpoints.
pub proof fn lemma_interp_in_range(start: int, target: int, elapsed: int, duration: int, e: Easing)
    ensures
        interp_micro(start, target, elapsed, duration, e) >= if start <= target {
            start
        } else {
            target
        },
        interp_micro(start, target, elapsed, duration, e) <= if start <= target {
            target
        } else {
            start
        },
{
}

/// At or past the end of the window the interpolation is exactly the
/// target, whatever the curve.
pub proof fn lemma_interp_completion(
    start: int,
    target: int,
    elapsed: int,
    duration: int,
    e: Easing,
)
    requires
        elapsed >= duration,
    ensures
        interp_micro(start, target, elapsed, duration, e) == target,
{
}

/// Clamping the elapsed time to the window's length never changes the
/// interpolated temperature: resuming from a persisted elapsed value and
/// aligning with a schedule window compute the same result.
pub proof fn lemma_resume_consistency(
    start: int,
    target: int,
    elapsed: int,
    duration: int,
    e: Easing,
)
    ensures
        interp_micro(
            start,
            target,
            if elapsed > duration {
                duration
            } else {
                elapsed
            },
            duration,
            e,
        ) == interp_micro(start, target, elapsed, duration, e),
{
}

/// At zero elapsed time the interpolation returns the start temperature.
pub proof fn lemma_interp_at_zero(start: int, target: int, duration: int, e: Easing)
    requires
        duration > 0,
    ensures
        interp_micro(start, target, 0, duration, e) == start,
{
    let s = SCALE as int;
    assert(0 * s == 0) by (nonlinear_arith);
    assert(0int / duration == 0) by (nonlinear_arith)
        requires duration > 0;
    crate::easing::lemma_easing_bounds(e, 0);
    assert(eased_micro(e, 0) == 0);
    assert((target - start) * 0 == 0) by (nonlinear_arith);
    assert(rdiv_half(0, s) == 0) by {
        assert((0 + s / 2) / s == 0);
    };
}

/// The functional model of the engine's state.
pub struct TransitionView {
    pub duration_secs: u64,
    pub easing: Seq<char>,
    pub current_temperature: u16,
    pub target_temperature: u16,
    pub transition_start_temp: u16,
    pub transition_start_timestamp: u64,
    pub phase_start_mono: u64,
    pub in_transition: bool,
}

/// What `update` does to the engine state: snap on a zero window, settle
/// when already at the target, rebase on a new target, then either finish
/// or interpolate at the elapsed time. Every idle outcome settles all
/// three temperatures to the same value (the idle invariant).
pub open spec fn update_spec(
    v: TransitionView,
    tgt: u16,
    now_mono: u64,
    now_wall: u64,
) -> TransitionView {
    let d = v.duration_secs as int;
    if d == 0 {
        TransitionView {
            current_temperature: tgt,
            target_temperature: tgt,
            transition_start_temp: tgt,
            transition_start_timestamp: now_wall,
            in_transition: false,
            ..v
        }
    } else if v.current_temperature == tgt {
        TransitionView { target_temperature: tgt, transition_start_temp: tgt, in_transition: false, ..v }
    } else {
        let v1 = if !v.in_transition || v.target_temperature != tgt {
            TransitionView {
                transition_start_temp: v.current_temperature,
                target_temperature: tgt,
                phase_start_mono: now_mono,
                transition_start_timestamp: now_wall,
                in_transition: true,
                ..v
            }
        } else {
            v
        };
        let elapsed = sat_sub(now_mono as int, v1.phase_start_mono as int);
        if elapsed >= d {
            TransitionView {
                current_temperature: tgt,
                transition_start_temp: tgt,
                in_transition: false,
                ..v1
            }
        } else {
            TransitionView {
                current_temperature: interp_micro(
                    v1.transition_start_temp as int,
                    tgt as int,
                    elapsed,
                    d,
                    parse_easing_spec(v.easing),
                ) as u16,
                ..v1
            }
        }
    }
}

/// What `align_with_schedule` does: snap on a zero window, otherwise clamp
/// the supplied elapsed time, interpolate, and backdate the reference
/// instants so later ticks stay consistent. A window that is empty or
/// already over leaves the engine idle with all three temperatures equal
/// (the idle invariant); only a still-running window records the supplied
/// start temperature.
pub open spec fn align_spec(
    v: TransitionView,
    start_temp: u16,
    tgt: u16,
    elapsed: u64,
    now_mono: u64,
    now_wall: u64,
) -> TransitionView {
    let d = v.duration_secs as int;
    if d == 0 {
        TransitionView {
            current_temperature: tgt,
            target_temperature: tgt,
            transition_start_temp: tgt,
            transition_start_timestamp: now_wall,
            phase_start_mono: now_mono,
            in_transition: false,
            ..v
        }
    } else {
        let ce = if elapsed as int > d {
            d
        } else {
            elapsed as int
        };
        TransitionView {
            current_temperature: interp_micro(
                start_temp as int,
                tgt as int,
                ce,
                d,
                parse_easing_spec(v.easing),
            ) as u16,
            target_temperature: tgt,
            transition_start_temp: if ce < d {
                start_temp
            } else {
                tgt
            },
            transition_start_timestamp: sat_sub(now_wall as int, ce) as u64,
            phase_start_mono: sat_sub(now_mono as int, ce) as u64,
            in_transition: ce < d,
            ..v
        }
    }
}


/// The idle invariant after `update`: whenever the engine comes out idle,
/// its current, target and transition-start temperatures coincide.
pub proof fn lemma_update_idle_settled(v: TransitionView, tgt: u16, m: u64, w: u64)
    ensures
        !update_spec(v, tgt, m, w).in_transition ==> update_spec(v, tgt, m, w).current_temperature
            == update_spec(v, tgt, m, w).target_temperature && update_spec(
            v,
            tgt,
            m,
            w,
        ).transition_start_temp == update_spec(v, tgt, m, w).target_temperature,
{
}

/// The idle invariant after `align_with_schedule`: an empty or finished
/// window leaves all three temperatures equal.
pub proof fn lemma_align_idle_settled(
    v: TransitionView,
    start_temp: u16,
    tgt: u16,
    elapsed: u64,
    m: u64,
    w: u64,
)
    ensures
        !align_spec(v, start_temp, tgt, elapsed, m, w).in_transition ==> align_spec(
            v,
            start_temp,
            tgt,
            elapsed,
            m,
            w,
        ).current_temperature == tgt && align_spec(
            v,
            start_temp,
            tgt,
            elapsed,
            m,
            w,
        ).target_temperature == tgt && align_spec(
            v,
            start_temp,
            tgt,
            elapsed,
            m,
            w,
        ).transition_start_temp == tgt,
{
    let d = v.duration_secs as int;
    if d != 0 {
        let ce = if elapsed as int > d {
            d
        } else {
            elapsed as int
        };
        if ce >= d {
            lemma_interp_completion(start_temp as int, tgt as int, ce, d, parse_easing_spec(v.easing));
        }
    }
}

/// Calling `update` twice in a row with the same target and the same
/// monotonic reading leaves the current temperature unchanged.
pub proof fn lemma_update_stable(v: TransitionView, tgt: u16, m: u64, w: u64, w2: u64)
    ensures
        update_spec(update_spec(v, tgt, m, w), tgt, m, w2).current_temperature == update_spec(
            v,
            tgt,
            m,
            w,
        ).current_temperature,
{
    let d = v.duration_secs as int;
    let v1 = update_spec(v, tgt, m, w);
    if d == 0 {
    } else if v.current_temperature == tgt {
    } else {
        let e = parse_easing_spec(v.easing);
        if !v.in_transition || v.target_temperature != tgt {
            let elapsed = sat_sub(m as int, m as int);
            assert(elapsed == 0);
            if 0 < d {
                lemma_interp_at_zero(v.current_temperature as int, tgt as int, d, e);
                assert(v1.current_temperature == v.current_temperature);
                if v1.current_temperature == tgt {
                } else {
                    assert(v1.in_transition && v1.target_temperature == tgt);
                    lemma_interp_at_zero(v1.transition_start_temp as int, tgt as int, d, e);
                }
            }
        } else {
            let elapsed = sat_sub(m as int, v.phase_start_mono as int);
            if elapsed >= d {
                assert(v1.current_temperature == tgt);
            } else {
                if v1.current_temperature == tgt {
                } else {
                    assert(v1.phase_start_mono == v.phase_start_mono);
                    assert(v1.transition_start_temp == v.transition_start_temp);
                }
            }
        }
    }
}

/// Raw time progress of the engine at a monotonic reading.
pub open spec fn progress_spec(v: TransitionView, now_mono: u64) -> int {
    if !v.in_transition {
        SCALE as int
    } else {
        progress_micro(sat_sub(now_mono as int, v.phase_start_mono as int), v.duration_secs as int)
    }
}

/// The transition engine.
pub struct Transition {
    config: Config,
    current_temperature: u16,
    target_temperature: u16,
    transition_start_temp: u16,
    transition_start_timestamp: u64,
    phase_start_mono: u64,
    in_transition: bool,
}

impl View for Transition {
    type V = TransitionView;

    closed spec fn view(&self) -> TransitionView {
        TransitionView {
            duration_secs: (60 * (self.config.transition.duration_minutes as int)) as u64,
            easing: self.config.transition.easing@,
            current_temperature: self.current_temperature,
            target_temperature: self.target_temperature,
            transition_start_temp: self.transition_start_temp,
            transition_start_timestamp: self.transition_start_timestamp,
            phase_start_mono: self.phase_start_mono,
            in_transition: self.in_transition,
        }
    }
}

/// The interpolated temperature as an executable function; exactly the
/// spec-level `interp_micro`.
pub fn interpolate(start_temp: u16, target_temp: u16, elapsed: u64, duration: u64, e: Easing) -> (r:
    u16)
    requires
        easing_wf(e),
    ensures
        r as int == interp_micro(
            start_temp as int,
            target_temp as int,
            elapsed as int,
            duration as int,
            e,
        ),
{
    if duration == 0 || elapsed >= duration {
        return target_temp;
    }
    proof {
        assert((elapsed as int) * (SCALE as int) <= 18446744073709551615 * 1_000_000)
            by (nonlinear_arith)
            requires 0 <= elapsed as int <= 18446744073709551615, SCALE as int == 1_000_000;
    }
    let tnum: u128 = (elapsed as u128) * (SCALE as u128);
    proof {
        assert((elapsed as int) * (SCALE as int) <= (duration as int) * (SCALE as int))
            by (nonlinear_arith)
            requires elapsed as int <= duration as int, SCALE as int > 0;
        vstd::arithmetic::div_mod::lemma_div_is_ordered(
            (elapsed as int) * (SCALE as int),
            (duration as int) * (SCALE as int),
            duration as int,
        );
        vstd::arithmetic::div_mod::lemma_div_by_multiple(SCALE as int, duration as int);
        assert((duration as int) * (SCALE as int) == (SCALE as int) * (duration as int))
            by (nonlinear_arith);
        assert(tnum as int / (duration as int) <= SCALE);
    }
    let t: u64 = (tnum / (duration as u128)) as u64;
    let eased: u64 = crate::easing::ease_eval(e, t);
    let range: i128 = (target_temp as i128) - (start_temp as i128);
    proof {
        assert(-65535 * 1_000_000 <= (range as int) * (eased as int) <= 65535 * 1_000_000)
            by (nonlinear_arith)
            requires -65535 <= range as int <= 65535, 0 <= eased as int <= 1_000_000;
    }
    let prod: i128 = range * (eased as i128);
    let half: i128 = (SCALE as i128) / 2;
    let delta: i128 = if prod >= 0 {
        (prod + half) / (SCALE as i128)
    } else {
        -((-prod + half) / (SCALE as i128))
    };
    proof {
        assert(delta as int == rdiv_half(prod as int, SCALE as int));
    }
    let raw: i128 = (start_temp as i128) + delta;
    let lo: u16 = if start_temp <= target_temp {
        start_temp
    } else {
        target_temp
    };
    let hi: u16 = if start_temp <= target_temp {
        target_temp
    } else {
        start_temp
    };
    let clamped: i128 = if raw < (lo as i128) {
        lo as i128
    } else if raw > (hi as i128) {
        hi as i128
    } else {
        raw
    };
    clamped as u16
}

impl Transition {
    /// A fresh engine holding `initial_temp` steady: not in transition,
    /// with the wall-clock stamp taken now and the monotonic origin at 0.
    pub fn new_with_temp(config: Config, initial_temp: u16) -> (r: Self)
        ensures
            r@.current_temperature == initial_temp,
            r@.target_temperature == initial_temp,
            r@.transition_start_temp == initial_temp,
            r@.phase_start_mono == 0,
            r@.in_transition == false,
            r@.duration_secs as int == 60 * (config.transition.duration_minutes as int),
            r@.easing == config.transition.easing@,
    {
        let ts: u64 = crate::clock::current_unix_timestamp();
        Transition {
            config,
            current_temperature: initial_temp,
            target_temperature: initial_temp,
            transition_start_temp: initial_temp,
            transition_start_timestamp: ts,
            phase_start_mono: 0,
            in_transition: false,
        }
    }

    /// Advances toward `target_temp` at the given monotonic and wall-clock
    /// readings; exactly `update_spec` on the engine's model.
    pub fn update(&mut self, target_temp: u16, now_mono: u64, now_wall: u64)
        ensures
            final(self)@ == update_spec(old(self)@, target_temp, now_mono, now_wall),
    {
        let duration: u64 = 60 * (self.config.transition.duration_minutes as u64);
        if duration == 0 {
            self.current_temperature = target_temp;
            self.target_temperature = target_temp;
            self.transition_start_temp = target_temp;
            self.transition_start_timestamp = now_wall;
            self.in_transition = false;
            return ;
        }
        if self.current_temperature == target_temp {
            self.target_temperature = target_temp;
            self.transition_start_temp = target_temp;
            self.in_transition = false;
            return ;
        }
        if !self.in_transition || self.target_temperature != target_temp {
            self.transition_start_temp = self.current_temperature;
            self.target_temperature = target_temp;
            self.phase_start_mono = now_mono;
            self.transition_start_timestamp = now_wall;
            self.in_transition = true;
        }
        let elapsed: u64 = if now_mono >= self.phase_start_mono {
            now_mono - self.phase_start_mono
        } else {
            0
        };
        if elapsed >= duration {
            self.current_temperature = self.target_temperature;
            self.transition_start_temp = self.target_temperature;
            self.in_transition = false;
            return ;
        }
        let e: Easing = parse_easing(self.config.transition.easing.as_str());
        let cur: u16 = interpolate(
            self.transition_start_temp,
            target_temp,
            elapsed,
            duration,
            e,
        );
        proof {
            lemma_interp_in_range(
                self.transition_start_temp as int,
                target_temp as int,
                elapsed as int,
                duration as int,
                e,
            );
        }
        self.current_temperature = cur;
    }

    /// Re-bases the engine on an authoritative window reported by the
    /// scheduler; exactly `align_spec` on the engine's model.
    pub fn align_with_schedule(
        &mut self,
        start_temp: u16,
        target_temp: u16,
        elapsed_seconds: u64,
        now_mono: u64,
        now_wall: u64,
    )
        ensures
            final(self)@ == align_spec(
                old(self)@,
                start_temp,
                target_temp,
                elapsed_seconds,
                now_mono,
                now_wall,
            ),
    {
        let duration: u64 = 60 * (self.config.transition.duration_minutes as u64);
        if duration == 0 {
            self.current_temperature = target_temp;
            self.target_temperature = target_temp;
            self.transition_start_temp = target_temp;
            self.transition_start_timestamp = now_wall;
            self.phase_start_mono = now_mono;
            self.in_transition = false;
            return ;
        }
        let clamped_elapsed: u64 = if elapsed_seconds > duration {
            duration
        } else {
            elapsed_seconds
        };
        let e: Easing = parse_easing(self.config.transition.easing.as_str());
        let cur: u16 = interpolate(start_temp, target_temp, clamped_elapsed, duration, e);
        self.current_temperature = cur;
        self.transition_start_temp = if clamped_elapsed < duration {
            start_temp
        } else {
            target_temp
        };
        self.target_temperature = target_temp;
        self.phase_start_mono = if now_mono >= clamped_elapsed {
            now_mono - clamped_elapsed
        } else {
            0
        };
        self.transition_start_timestamp = if now_wall >= clamped_elapsed {
            now_wall - clamped_elapsed
        } else {
            0
        };
        self.in_transition = clamped_elapsed < duration;
    }

    /// Raw time progress in micro-units: 1 when idle, the clamped share of
    /// the window otherwise; independent of the easing curve.
    pub fn progress(&self, now_mono: u64) -> (r: u64)
        ensures
            r as int == progress_spec(self@, now_mono),
            r <= SCALE,
    {
        if !self.in_transition {
            return SCALE;
        }
        let duration: u64 = 60 * (self.config.transition.duration_minutes as u64);
        if duration == 0 {
            return SCALE;
        }
        let elapsed: u64 = if now_mono >= self.phase_start_mono {
            now_mono - self.phase_start_mono
        } else {
            0
        };
        if elapsed >= duration {
            SCALE
        } else {
            proof {
                assert((elapsed as int) * (SCALE as int) <= 18446744073709551615 * 1_000_000)
                    by (nonlinear_arith)
                    requires 0 <= elapsed as int <= 18446744073709551615, SCALE as int
                        == 1_000_000;
            }
            let tnum: u128 = (elapsed as u128) * (SCALE as u128);
            proof {
                assert((elapsed as int) * (SCALE as int) <= (duration as int) * (SCALE as int))
                    by (nonlinear_arith)
                    requires elapsed as int <= duration as int, SCALE as int > 0;
                vstd::arithmetic::div_mod::lemma_div_is_ordered(
                    (elapsed as int) * (SCALE as int),
                    (duration as int) * (SCALE as int),
                    duration as int,
                );
                vstd::arithmetic::div_mod::lemma_div_by_multiple(SCALE as int, duration as int);
                assert((duration as int) * (SCALE as int) == (SCALE as int) * (duration as int))
                    by (nonlinear_arith);
                assert(tnum as int / (duration as int) <= SCALE);
            }
            let t: u64 = (tnum / (duration as u128)) as u64;
            t
        }
    }

    /// The temperature the engine currently holds.
    pub fn current_temperature(&self) -> (r: u16)
        ensures
            r == self@.current_temperature,
    {
        self.current_temperature
    }

    /// The temperature the engine is moving toward.
    pub fn target_temperature(&self) -> (r: u16)
        ensures
            r == self@.target_temperature,
    {
        self.target_temperature
    }

    /// The temperature the running transition started from.
    pub fn transition_start_temp(&self) -> (r: u16)
        ensures
            r == self@.transition_start_temp,
    {
        self.transition_start_temp
    }

    /// Wall-clock unix seconds when the running transition started.
    pub fn transition_start_timestamp(&self) -> (r: u64)
        ensures
            r == self@.transition_start_timestamp,
    {
        self.transition_start_timestamp
    }

    /// Whether a transition is in flight.
    pub fn is_in_transition(&self) -> (r: bool)
        ensures
            r == self@.in_transition,
    {
        self.in_transition
    }
}


/// While a transition is in flight the engine's temperature stays within
/// the two endpoint temperatures (clamped interpolation).
pub proof fn lemma_update_clamped(v: TransitionView, tgt: u16, m: u64, w: u64)
    ensures
        update_spec(v, tgt, m, w).in_transition ==> {
            let r = update_spec(v, tgt, m, w);
            let lo = if r.transition_start_temp <= r.target_temperature {
                r.transition_start_temp
            } else {
                r.target_temperature
            };
            let hi = if r.transition_start_temp <= r.target_temperature {
                r.target_temperature
            } else {
                r.transition_start_temp
            };
            lo <= r.current_temperature <= hi
        },
{
    let d = v.duration_secs as int;
    if d != 0 && v.current_temperature != tgt {
        let v1 = if !v.in_transition || v.target_temperature != tgt {
            TransitionView {
                transition_start_temp: v.current_temperature,
                target_temperature: tgt,
                phase_start_mono: m,
                transition_start_timestamp: w,
                in_transition: true,
                ..v
            }
        } else {
            v
        };
        let elapsed = sat_sub(m as int, v1.phase_start_mono as int);
        if elapsed < d {
            lemma_interp_in_range(
                v1.transition_start_temp as int,
                tgt as int,
                elapsed,
                d,
                parse_easing_spec(v.easing),
            );
        }
    }
}

/// The same clamping invariant for schedule alignment.
pub proof fn lemma_align_clamped(
    v: TransitionView,
    start_temp: u16,
    tgt: u16,
    elapsed: u64,
    m: u64,
    w: u64,
)
    ensures
        align_spec(v, start_temp, tgt, elapsed, m, w).in_transition ==> {
            let r = align_spec(v, start_temp, tgt, elapsed, m, w);
            let lo = if r.transition_start_temp <= r.target_temperature {
                r.transition_start_temp
            } else {
                r.target_temperature
            };
            let hi = if r.transition_start_temp <= r.target_temperature {
                r.target_temperature
            } else {
                r.transition_start_temp
            };
            lo <= r.current_temperature <= hi
        },
{
    let d = v.duration_secs as int;
    if d != 0 {
        let ce = if elapsed as int > d {
            d
        } else {
            elapsed as int
        };
        lemma_interp_in_range(start_temp as int, tgt as int, ce, d, parse_easing_spec(v.easing));
    }
}


/// Resume consistency across components: aligning the engine with a
/// window and recomputing the temperature from a persisted record return
/// the same value for the same start, target, elapsed time, window length
/// and curve.
pub proof fn lemma_align_matches_resume(
    v: TransitionView,
    start_temp: u16,
    tgt: u16,
    elapsed: u64,
    m: u64,
    w: u64,
)
    ensures
        align_spec(v, start_temp, tgt, elapsed, m, w).current_temperature as int == interp_micro(
            start_temp as int,
            tgt as int,
            elapsed as int,
            v.duration_secs as int,
            parse_easing_spec(v.easing),
        ),
{
    let d = v.duration_secs as int;
    let e = parse_easing_spec(v.easing);
    if d == 0 {
    } else {
        lemma_resume_consistency(start_temp as int, tgt as int, elapsed as int, d, e);
        let ce = if elapsed as int > d {
            d
        } else {
            elapsed as int
        };
        lemma_interp_in_range(start_temp as int, tgt as int, ce, d, e);
    }
}

} // verus!
