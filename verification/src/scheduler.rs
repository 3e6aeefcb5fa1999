//! The phase resolver: classifies an instant into the four daily phases,
//! reports the active transition window, and predicts the next transition
//! start, in either scheduling mode.
//!
//! Instants are unix seconds. In Auto mode the day's sunrise and sunset
//! instants come from the solar library; in Fixed mode the wake/bed clock
//! times are compared against the local time of day. Interval comparisons
//! are half-open `[start, end)`: the instant exactly at a boundary belongs
//! to the later state.

use crate::config::{Config, Location, Mode};
use chrono::{Datelike, TimeZone, Timelike};
use crate::text::digits_val;
use vstd::prelude::*;
use vstd::string::StrSliceExecFns;
use vstd::string::StringExecFns;

verus! {

/// One of the four daily states.
#[derive(Clone, Copy, Debug, PartialEq, Eq, Structural)]
pub enum Phase {
    Day,
    TransitioningToNight,
    Night,
    TransitioningToDay,
}

impl Phase {
    /// The phase's name as written into the status file.
    pub fn as_str(self) -> (r: &'static str)
        ensures
            self == Phase::Day ==> r@ == "day"@,
            self == Phase::TransitioningToNight ==> r@ == "transitioning_to_night"@,
            self == Phase::Night ==> r@ == "night"@,
            self == Phase::TransitioningToDay ==> r@ == "transitioning_to_day"@,
    {
        match self {
            Phase::Day => "day",
            Phase::TransitioningToNight => "transitioning_to_night",
            Phase::Night => "night",
            Phase::TransitioningToDay => "transitioning_to_day",
        }
    }
}

/// The active interpolation interval: its start instant and the two
/// endpoint temperatures.
pub struct TransitionWindow {
    pub start: i64,
    pub start_temp: u16,
    pub target_temp: u16,
}

/// Gregorian leap year.
pub open spec fn is_leap_year(y: int) -> bool {
    y % 4 == 0 && (y % 100 != 0 || y % 400 == 0)
}

/// Days in a month of the Gregorian calendar.
pub open spec fn days_in_month(y: int, m: int) -> int {
    if m == 1 || m == 3 || m == 5 || m == 7 || m == 8 || m == 10 || m == 12 {
        31
    } else if m == 4 || m == 6 || m == 9 || m == 11 {
        30
    } else if is_leap_year(y) {
        29
    } else {
        28
    }
}

/// A real Gregorian calendar date.
pub open spec fn valid_ymd(y: int, m: int, d: int) -> bool {
    1 <= m <= 12 && 1 <= d <= days_in_month(y, m)
}

/// The calendar date after (y, m, d).
pub open spec fn next_day_spec(y: int, m: int, d: int) -> (int, int, int) {
    if d < days_in_month(y, m) {
        (y, m, d + 1)
    } else if m < 12 {
        (y, m + 1, 1)
    } else {
        (y + 1, 1, 1)
    }
}

/// Computes the next calendar date.
pub fn next_day(y: i32, m: u8, d: u8) -> (r: (i32, u8, u8))
    requires
        valid_ymd(y as int, m as int, d as int),
        y < 100_000,
    ensures
        (r.0 as int, r.1 as int, r.2 as int) == next_day_spec(y as int, m as int, d as int),
        valid_ymd(r.0 as int, r.1 as int, r.2 as int),
        y as int <= r.0 as int <= y as int + 1,
{
    let leap: bool = (y % 4 == 0) && (y % 100 != 0 || y % 400 == 0);
    let dim: u8 = if m == 1 || m == 3 || m == 5 || m == 7 || m == 8 || m == 10 || m == 12 {
        31
    } else if m == 4 || m == 6 || m == 9 || m == 11 {
        30
    } else if leap {
        29
    } else {
        28
    };
    if d < dim {
        (y, m, d + 1)
    } else if m < 12 {
        (y, m + 1, 1)
    } else {
        (y + 1, 1, 1)
    }
}

/// Days from the unix epoch to a calendar date (negative before 1970);
/// the standard era-based civil-calendar day count.
pub open spec fn days_from_civil(y: int, m: int, d: int) -> int {
    let yy = if m <= 2 {
        y - 1
    } else {
        y
    };
    let era = yy / 400;
    let yoe = yy - era * 400;
    let mp = (m + 9) % 12;
    let doy = (153 * mp + 2) / 5 + d - 1;
    let doe = yoe * 365 + yoe / 4 - yoe / 100 + doy;
    era * 146097 + doe - 719468
}

/// An instant together with its local civil reading: the unix second, the
/// local calendar date, and the local second of day.
pub struct LocalStamp {
    pub unix: i64,
    pub year: i32,
    pub month: u8,
    pub day: u8,
    pub secs_of_day: u32,
}

impl LocalStamp {
    /// A stamp whose civil fields are a real date and time of day, in the
    /// range the solar computation accepts.
    pub open spec fn wf(self) -> bool {
        valid_ymd(self.year as int, self.month as int, self.day as int) && 1969 <= self.year
            <= 10000 && self.secs_of_day < 86400 && 0 <= self.unix <= 253402300799 && 86400
            * days_from_civil(self.year as int, self.month as int, self.day as int) - 86400
            <= self.unix <= 86400 * days_from_civil(
            self.year as int,
            self.month as int,
            self.day as int,
        ) + 2 * 86400
    }

    /// Reads the local civil fields of a unix instant; `None` outside the
    /// supported range (before 1970 or after the year 9999).
    pub fn from_unix(ts: i64) -> (r: Option<LocalStamp>)
        ensures
            r is Some <==> 0 <= ts <= 253402300799,
            r matches Some(st) ==> st.wf() && st.unix == ts,
    {
        if ts < 0 || ts > 253402300799 {
            return None;
        }
        let (year, month, day, secs_of_day) = local_civil_of(ts);
        Some(LocalStamp { unix: ts, year, month, day, secs_of_day })
    }

    /// The stamp for the current wall-clock time; `None` only if the clock
    /// reads past the year 9999.
    pub fn now_local() -> (r: Option<LocalStamp>)
        ensures
            r matches Some(st) ==> st.wf(),
    {
        let ts: u64 = crate::clock::current_unix_timestamp();
        if ts > 253402300799 {
            return None;
        }
        LocalStamp::from_unix(ts as i64)
    }
}

/// Local civil reading of an in-range unix instant.
///
/// Relies on chrono's `TimeZone::timestamp_opt` for the `Local` timezone:
/// converting an instant to local time is unambiguous, and the result is a
/// real calendar date with a time of day below 86400 seconds. Timezone
/// offsets are below one day, so an instant between 1970 and the year 9999
/// lands in a local year between 1969 and 10000, and the instant lies
/// within a day of its local date's own day window.
#[verifier::external_body]
fn local_civil_of(ts: i64) -> (r: (i32, u8, u8, u32))
    requires
        0 <= ts <= 253402300799,
    ensures
        valid_ymd(r.0 as int, r.1 as int, r.2 as int),
        1969 <= r.0 <= 10000,
        r.3 < 86400,
        86400 * days_from_civil(r.0 as int, r.1 as int, r.2 as int) - 86400 <= ts <= 86400
            * days_from_civil(r.0 as int, r.1 as int, r.2 as int) + 2 * 86400,
{
    let dt = chrono::Local.timestamp_opt(ts, 0).unwrap();
    let date = dt.date_naive();
    (date.year(), date.month() as u8, date.day() as u8, dt.time().num_seconds_from_midnight())
}

/// The unix instant of a local civil time, when it exists.
///
/// Relies on chrono's `TimeZone::from_local_datetime` for the `Local`
/// timezone, taking the single result, or the earliest, or the latest when
/// daylight-saving shifts make the reading ambiguous; `None` when the
/// reading does not exist locally. A returned instant for a year up to
/// 10001 lies within a day of the civil date's UTC reading.
#[verifier::external_body]
fn local_instant_of(year: i32, month: u8, day: u8, secs_of_day: u32) -> (r: Option<i64>)
    requires
        valid_ymd(year as int, month as int, day as int),
        1969 <= year <= 10001,
        secs_of_day < 86400,
    ensures
        r matches Some(v) ==> -40_000_000 <= v <= 253_500_000_000,
{
    let date = chrono::NaiveDate::from_ymd_opt(year, month as u32, day as u32)?;
    let time = chrono::NaiveTime::from_num_seconds_from_midnight_opt(secs_of_day, 0)?;
    let naive = date.and_time(time);
    let resolved = chrono::Local.from_local_datetime(&naive);
    resolved.single().or_else(|| resolved.earliest()).or_else(|| resolved.latest()).map(|dt|
        dt.timestamp())
}

/// Zero digits needed in front of a six-digit fractional part.
pub open spec fn pad6(frac: int) -> Seq<char> {
    if frac < 10 {
        "00000"@
    } else if frac < 100 {
        "0000"@
    } else if frac < 1_000 {
        "000"@
    } else if frac < 10_000 {
        "00"@
    } else if frac < 100_000 {
        "0"@
    } else {
        Seq::<char>::empty()
    }
}

/// A microdegree value written as degrees in decimal: an optional minus
/// sign, the whole degrees, a dot, and exactly six fractional digits.
pub open spec fn microdeg_decimal_spec(v: int) -> Seq<char> {
    let a = if v < 0 {
        -v
    } else {
        v
    };
    let whole = a / 1_000_000;
    let frac = a % 1_000_000;
    let sign = if v < 0 {
        "-"@
    } else {
        Seq::<char>::empty()
    };
    sign + crate::text::dec_rep(whole as nat) + "."@ + pad6(frac) + crate::text::dec_rep(frac as nat)
}

/// Formats a microdegree value as decimal degrees, mirroring
/// `microdeg_decimal_spec`.
pub fn microdeg_decimal(v: i64) -> (s: String)
    requires
        -200_000_000 <= v <= 200_000_000,
    ensures
        s@ == microdeg_decimal_spec(v as int),
{
    let mut out: String = String::new();
    let a: u64 = if v < 0 {
        out.append("-");
        (-v) as u64
    } else {
        v as u64
    };
    let whole: u64 = a / 1_000_000;
    let frac: u64 = a % 1_000_000;
    crate::text::push_decimal(&mut out, whole);
    out.append(".");
    if frac < 10 {
        out.append("00000");
    } else if frac < 100 {
        out.append("0000");
    } else if frac < 1_000 {
        out.append("000");
    } else if frac < 10_000 {
        out.append("00");
    } else if frac < 100_000 {
        out.append("0");
    }
    crate::text::push_decimal(&mut out, frac);
    proof {
        assert(out@ =~= microdeg_decimal_spec(v as int));
    }
    out
}

/// The local sunrise instant of a calendar date at a position, for the
/// position given in microdegrees; a pure function of its arguments.
pub uninterp spec fn sunrise_of(lat_udeg: i64, lon_udeg: i64, year: i32, month: u8, day: u8) -> i64;

/// The local sunset instant of a calendar date at a position, for the
/// position given in microdegrees; a pure function of its arguments.
pub uninterp spec fn sunset_of(lat_udeg: i64, lon_udeg: i64, year: i32, month: u8, day: u8) -> i64;

/// Whether a position in microdegrees is a valid geographic coordinate.
pub open spec fn coords_valid(loc: Location) -> bool {
    -90_000_000 <= loc.latitude_microdeg <= 90_000_000 && -180_000_000 <= loc.longitude_microdeg
        <= 180_000_000
}

/// Sunrise instant for a date and position.
///
/// Relies on the solar library's `SolarDay::event_time`: a deterministic
/// astronomical computation from the coordinates and the date alone; the
/// microdegree position is handed over in its exact decimal form. The
/// solar transit lies within 0.6 day of the date's noon and the hour-angle
/// share within half a day, so a non-degenerate result stays within two
/// days before the date's start and three days after; where the sun does
/// not cross the horizon the arc-cosine degenerates and the result is 0.
#[verifier::external_body]
fn sunrise_ts(lat_udeg: i64, lon_udeg: i64, year: i32, month: u8, day: u8) -> (r: i64)
    requires
        -90_000_000 <= lat_udeg <= 90_000_000,
        -180_000_000 <= lon_udeg <= 180_000_000,
        valid_ymd(year as int, month as int, day as int),
        1969 <= year <= 10001,
    ensures
        r == sunrise_of(lat_udeg, lon_udeg, year, month, day),
        -40_000_000 <= r <= 253_500_000_000,
        r == 0 || (86400 * days_from_civil(year as int, month as int, day as int) - 172800 <= r
            <= 86400 * days_from_civil(year as int, month as int, day as int) + 259200),
{
    let lat_s = microdeg_decimal(lat_udeg);
    let lon_s = microdeg_decimal(lon_udeg);
    let coord = sunrise::Coordinates::new(lat_s.parse().expect("numeric"), lon_s.parse().expect("numeric"))
        .expect("validated coordinates");
    let date = chrono::NaiveDate::from_ymd_opt(year, month as u32, day as u32).expect("valid date");
    sunrise::SolarDay::new(coord, date).event_time(sunrise::SolarEvent::Sunrise).timestamp()
}

/// Sunset instant for a date and position.
///
/// Relies on the solar library's `SolarDay::event_time`, as `sunrise_ts`
/// does, with the same date-relative bounds.
#[verifier::external_body]
fn sunset_ts(lat_udeg: i64, lon_udeg: i64, year: i32, month: u8, day: u8) -> (r: i64)
    requires
        -90_000_000 <= lat_udeg <= 90_000_000,
        -180_000_000 <= lon_udeg <= 180_000_000,
        valid_ymd(year as int, month as int, day as int),
        1969 <= year <= 10001,
    ensures
        r == sunset_of(lat_udeg, lon_udeg, year, month, day),
        -40_000_000 <= r <= 253_500_000_000,
        r == 0 || (86400 * days_from_civil(year as int, month as int, day as int) - 172800 <= r
            <= 86400 * days_from_civil(year as int, month as int, day as int) + 259200),
{
    let lat_s = microdeg_decimal(lat_udeg);
    let lon_s = microdeg_decimal(lon_udeg);
    let coord = sunrise::Coordinates::new(lat_s.parse().expect("numeric"), lon_s.parse().expect("numeric"))
        .expect("validated coordinates");
    let date = chrono::NaiveDate::from_ymd_opt(year, month as u32, day as u32).expect("valid date");
    sunrise::SolarDay::new(coord, date).event_time(sunrise::SolarEvent::Sunset).timestamp()
}

/// Phase of an instant against the day's solar events: night from the end
/// of the evening transition, transitioning-to-night from sunset, day from
/// the end of the morning transition, transitioning-to-day from sunrise,
/// night before that.
pub open spec fn auto_phase_spec(now: int, rise: int, set: int, dur: int) -> Phase {
    if now >= set + dur {
        Phase::Night
    } else if now >= set {
        Phase::TransitioningToNight
    } else if now >= rise + dur {
        Phase::Day
    } else if now >= rise {
        Phase::TransitioningToDay
    } else {
        Phase::Night
    }
}

/// Phase of a local time of day against the wake/bed clock times, with the
/// window ends wrapped around midnight as clock arithmetic does.
pub open spec fn fixed_phase_spec(sod: int, wake: int, bed: int, dur: int) -> Phase {
    let tstart = (bed - dur) % 86400;
    let tend = (wake + dur) % 86400;
    if sod >= wake && sod < tend {
        Phase::TransitioningToDay
    } else if sod >= tend && sod < tstart {
        Phase::Day
    } else if sod >= tstart && sod < bed {
        Phase::TransitioningToNight
    } else {
        Phase::Night
    }
}

/// When the sun rises before it sets and the windows fit in the day, the
/// four phases tile the whole timeline with no gaps or overlaps. The
/// ordering hypothesis fails on polar days, where the solar events
/// degenerate and the classification chain's priority decides instead.
pub proof fn lemma_auto_phase_partition(now: int, rise: int, set: int, dur: int)
    requires
        dur >= 0,
        rise + dur <= set,
    ensures
        auto_phase_spec(now, rise, set, dur) == Phase::TransitioningToNight <==> set <= now < set
            + dur,
        auto_phase_spec(now, rise, set, dur) == Phase::TransitioningToDay <==> rise <= now < rise
            + dur,
        auto_phase_spec(now, rise, set, dur) == Phase::Day <==> rise + dur <= now < set,
        auto_phase_spec(now, rise, set, dur) == Phase::Night <==> now < rise || now >= set + dur,
{
}

/// With ordered windows (morning transition ends before the evening one
/// starts, both within the day), the four phases tile the day.
pub proof fn lemma_fixed_phase_partition(sod: int, wake: int, bed: int, dur: int)
    requires
        0 <= sod < 86400,
        0 <= wake,
        dur >= 0,
        wake + dur <= bed - dur,
        bed < 86400,
    ensures
        fixed_phase_spec(sod, wake, bed, dur) == Phase::TransitioningToDay <==> wake <= sod < wake
            + dur,
        fixed_phase_spec(sod, wake, bed, dur) == Phase::Day <==> wake + dur <= sod < bed - dur,
        fixed_phase_spec(sod, wake, bed, dur) == Phase::TransitioningToNight <==> bed - dur <= sod
            < bed,
        fixed_phase_spec(sod, wake, bed, dur) == Phase::Night <==> sod < wake || bed <= sod,
{
    assert(0 <= bed - dur < 86400);
    assert(0 <= wake + dur < 86400);
    vstd::arithmetic::div_mod::lemma_small_mod((bed - dur) as nat, 86400);
    vstd::arithmetic::div_mod::lemma_small_mod((wake + dur) as nat, 86400);
}

/// "HH:MM" in 24-hour time, read as the second of the day: one or two
/// digits for the hour (below 24), a colon, one or two digits for the
/// minute (below 60), nothing else.
pub open spec fn parse_hhmm_spec(s: Seq<char>) -> Option<int> {
    let colon = crate::easing_parse::first_in(s, 0, ':');
    if colon < s.len() {
        let hp = s.subrange(0, colon);
        let mp = s.subrange(colon + 1, s.len() as int);
        if 1 <= hp.len() <= 2 && 1 <= mp.len() <= 2 && crate::text::all_digits(hp)
            && crate::text::all_digits(mp) && digits_val(hp) < 24 && digits_val(mp) < 60 {
            Some(digits_val(hp) * 3600 + digits_val(mp) * 60)
        } else {
            None
        }
    } else {
        None
    }
}

/// Parses an "HH:MM" clock time, mirroring `parse_hhmm_spec`.
pub fn parse_hhmm(s: &str) -> (r: Option<u32>)
    ensures
        parse_hhmm_spec(s@) is None ==> r is None,
        parse_hhmm_spec(s@) matches Some(v) ==> r matches Some(x) && x as int == v,
        r matches Some(x) ==> x < 86400,
{
    let len: usize = s.unicode_len();
    let mut colon: usize = 0;
    loop
        invariant
            colon <= len,
            len == s@.len(),
            crate::easing_parse::first_in(s@, colon as int, ':') == crate::easing_parse::first_in(
                s@,
                0,
                ':',
            ),
        ensures
            colon as int == crate::easing_parse::first_in(s@, 0, ':'),
            colon <= len,
            len == s@.len(),
        decreases len - colon,
    {
        if colon >= len {
            break ;
        }
        if s.get_char(colon) == ':' {
            break ;
        }
        colon = colon + 1;
    }
    proof {
        crate::easing_parse::lemma_first_in_bounds(s@, 0, ':');
    }
    if colon >= len {
        return None;
    }
    if colon < 1 || colon > 2 {
        return None;
    }
    let mlen: usize = len - colon - 1;
    if mlen < 1 || mlen > 2 {
        return None;
    }
    let ghost hp = s@.subrange(0, colon as int);
    let ghost mp = s@.subrange(colon + 1, len as int);
    let mut hv: u32 = 0;
    let mut i: usize = 0;
    loop
        invariant
            i <= colon,
            colon < len,
            len == s@.len(),
            colon <= 2,
            colon as int == crate::easing_parse::first_in(s@, 0, ':'),
            hp == s@.subrange(0, colon as int),
            crate::text::all_digits(hp.subrange(0, i as int)),
            hv as int == digits_val(hp.subrange(0, i as int)),
            hv <= 99,
        ensures
            i == colon,
            len == s@.len(),
            hp == s@.subrange(0, colon as int),
            crate::text::all_digits(hp),
            hv as int == digits_val(hp),
            hv <= 99,
        decreases colon - i,
    {
        if i >= colon {
            proof {
                assert(hp.subrange(0, i as int) =~= hp);
            }
            break ;
        }
        let c: char = s.get_char(i);
        let u: u32 = c as u32;
        if u < 48 || u > 57 {
            proof {
                assert(hp[i as int] == s@[i as int]);
                assert(!crate::text::all_digits(hp));
            }
            return None;
        }
        proof {
            let pref = hp.subrange(0, i as int);
            let pref2 = hp.subrange(0, i + 1);
            assert(pref2.drop_last() =~= pref);
            assert(pref2.last() == s@[i as int]);
            assert(crate::text::all_digits(pref2)) by {
                assert(forall|q: int| 0 <= q < pref2.len() - 1 ==> #[trigger] pref2[q] == pref[q]);
            };
            crate::text::lemma_digits_val_bound(pref2);
            crate::text::lemma_pow10_table();
            crate::text::lemma_pow10_le(pref2.len() as int, 2);
        }
        hv = hv * 10 + (u - 48);
        i = i + 1;
    }
    let mut mv: u32 = 0;
    let mut jj: usize = 0;
    loop
        invariant
            jj <= mlen,
            colon < len,
            len == s@.len(),
            mlen == len - colon - 1,
            mlen <= 2,
            colon as int == crate::easing_parse::first_in(s@, 0, ':'),
            colon >= 1,
            mp == s@.subrange(colon + 1, len as int),
            crate::text::all_digits(mp.subrange(0, jj as int)),
            mv as int == digits_val(mp.subrange(0, jj as int)),
            mv <= 99,
        ensures
            jj == mlen,
            mp == s@.subrange(colon + 1, len as int),
            crate::text::all_digits(mp),
            mv as int == digits_val(mp),
            mv <= 99,
        decreases mlen - jj,
    {
        if jj >= mlen {
            proof {
                assert(mp.subrange(0, jj as int) =~= mp);
            }
            break ;
        }
        let c: char = s.get_char(colon + 1 + jj);
        let u: u32 = c as u32;
        if u < 48 || u > 57 {
            proof {
                assert(mp[jj as int] == s@[colon + 1 + jj]);
                assert(!crate::text::all_digits(mp));
            }
            return None;
        }
        proof {
            let pref = mp.subrange(0, jj as int);
            let pref2 = mp.subrange(0, jj + 1);
            assert(pref2.drop_last() =~= pref);
            assert(pref2.last() == s@[colon + 1 + jj]);
            assert(crate::text::all_digits(pref2)) by {
                assert(forall|q: int| 0 <= q < pref2.len() - 1 ==> #[trigger] pref2[q] == pref[q]);
            };
            crate::text::lemma_digits_val_bound(pref2);
            crate::text::lemma_pow10_table();
            crate::text::lemma_pow10_le(pref2.len() as int, 2);
        }
        mv = mv * 10 + (u - 48);
        jj = jj + 1;
    }
    if hv >= 24 || mv >= 60 {
        return None;
    }
    Some(hv * 3600 + mv * 60)
}

/// The phase resolver: a validated configuration snapshot with the wake
/// and bed clock times parsed to seconds of the day.
pub struct Schedule {
    config: Config,
    wakeup_sod: u32,
    bedtime_sod: u32,
}

impl Schedule {
    /// The scheduling mode.
    pub closed spec fn mode(&self) -> Mode {
        self.config.mode
    }

    /// Latitude in microdegrees.
    pub closed spec fn lat(&self) -> i64 {
        self.config.location.latitude_microdeg
    }

    /// Longitude in microdegrees.
    pub closed spec fn lon(&self) -> i64 {
        self.config.location.longitude_microdeg
    }

    /// Wake time as a second of the day.
    pub closed spec fn wakeup(&self) -> u32 {
        self.wakeup_sod
    }

    /// Bed time as a second of the day.
    pub closed spec fn bedtime(&self) -> u32 {
        self.bedtime_sod
    }

    /// The transition window's length in seconds.
    pub closed spec fn duration_secs(&self) -> int {
        60 * (self.config.transition.duration_minutes as int)
    }

    /// Day target temperature.
    pub closed spec fn day_temp(&self) -> u16 {
        self.config.temperature.day
    }

    /// Night target temperature.
    pub closed spec fn night_temp(&self) -> u16 {
        self.config.temperature.night
    }

    /// The resolver's internal consistency: parsed clock times below one
    /// day, and coordinates on the globe in Auto mode, where they are used.
    pub closed spec fn wf(&self) -> bool {
        self.wakeup_sod < 86400 && self.bedtime_sod < 86400 && (self.config.mode == Mode::Auto
            ==> coords_valid(self.config.location)) && parse_hhmm_spec(
            self.config.schedule.wakeup@,
        ) == Some(self.wakeup_sod as int) && parse_hhmm_spec(self.config.schedule.bedtime@) == Some(
            self.bedtime_sod as int,
        )
    }

    /// Builds a resolver from a configuration snapshot. Fails exactly when
    /// the wake or bed time does not read as "HH:MM", or — in Auto mode,
    /// where they drive the solar computation — when the coordinates are
    /// off the globe. Fixed mode never consults the coordinates, so it
    /// does not validate them.
    pub fn new(config: Config) -> (r: Result<Schedule, String>)
        ensures
            r is Ok <==> parse_hhmm_spec(config.schedule.wakeup@) is Some && parse_hhmm_spec(
                config.schedule.bedtime@,
            ) is Some && (config.mode == Mode::Fixed || coords_valid(config.location)),
            r matches Ok(s) ==> s.wf() && s.mode() == config.mode && s.lat()
                == config.location.latitude_microdeg && s.lon()
                == config.location.longitude_microdeg && Some(s.wakeup() as int)
                == parse_hhmm_spec(config.schedule.wakeup@) && Some(s.bedtime() as int)
                == parse_hhmm_spec(config.schedule.bedtime@) && s.wakeup() < 86400 && s.bedtime()
                < 86400 && s.duration_secs() == 60 * (config.transition.duration_minutes as int)
                && s.day_temp() == config.temperature.day && s.night_temp()
                == config.temperature.night,
            r matches Err(m) ==> m@ == if parse_hhmm_spec(config.schedule.wakeup@) is None {
                "invalid wakeup time, expected HH:MM"@
            } else if parse_hhmm_spec(config.schedule.bedtime@) is None {
                "invalid bedtime time, expected HH:MM"@
            } else {
                "invalid coordinates"@
            },
    {
        let wakeup_sod: u32 = match parse_hhmm(config.schedule.wakeup.as_str()) {
            Some(v) => v,
            None => {
                return Err(String::from_str("invalid wakeup time, expected HH:MM"));
            },
        };
        let bedtime_sod: u32 = match parse_hhmm(config.schedule.bedtime.as_str()) {
            Some(v) => v,
            None => {
                return Err(String::from_str("invalid bedtime time, expected HH:MM"));
            },
        };
        let auto_mode: bool = match config.mode {
            Mode::Auto => true,
            Mode::Fixed => false,
        };
        if auto_mode && (config.location.latitude_microdeg < -90_000_000
            || config.location.latitude_microdeg > 90_000_000
            || config.location.longitude_microdeg < -180_000_000
            || config.location.longitude_microdeg > 180_000_000) {
            return Err(String::from_str("invalid coordinates"));
        }
        Ok(Schedule { config, wakeup_sod, bedtime_sod })
    }

    /// Classifies an instant. In Auto mode the result is the phase of the
    /// instant against that local date's sunrise and sunset; in Fixed mode
    /// the phase of the local time of day against the clock schedule.
    /// `lemma_auto_phase_partition` and `lemma_fixed_phase_partition` give
    /// the exact half-open interval reading of the result wherever the
    /// day's windows are ordered.
    pub fn current_phase_at(&self, now: &LocalStamp) -> (r: Phase)
        requires
            self.wf(),
            now.wf(),
        ensures
            self.mode() == Mode::Auto ==> r == auto_phase_spec(
                now.unix as int,
                sunrise_of(self.lat(), self.lon(), now.year, now.month, now.day) as int,
                sunset_of(self.lat(), self.lon(), now.year, now.month, now.day) as int,
                self.duration_secs(),
            ),
            self.mode() == Mode::Fixed ==> r == fixed_phase_spec(
                now.secs_of_day as int,
                self.wakeup() as int,
                self.bedtime() as int,
                self.duration_secs(),
            ),
    {
        match self.config.mode {
            Mode::Auto => self.auto_phase(now),
            Mode::Fixed => self.fixed_phase(now),
        }
    }

    /// Auto-mode classification against the day's solar events.
    fn auto_phase(&self, now: &LocalStamp) -> (r: Phase)
        requires
            self.wf(),
            self.mode() == Mode::Auto,
            now.wf(),
        ensures
            r == auto_phase_spec(
                now.unix as int,
                sunrise_of(self.lat(), self.lon(), now.year, now.month, now.day) as int,
                sunset_of(self.lat(), self.lon(), now.year, now.month, now.day) as int,
                self.duration_secs(),
            ),
    {
        let rise: i64 = sunrise_ts(
            self.config.location.latitude_microdeg,
            self.config.location.longitude_microdeg,
            now.year,
            now.month,
            now.day,
        );
        let set: i64 = sunset_ts(
            self.config.location.latitude_microdeg,
            self.config.location.longitude_microdeg,
            now.year,
            now.month,
            now.day,
        );
        let dur: i64 = 60 * (self.config.transition.duration_minutes as i64);
        if now.unix >= set + dur {
            Phase::Night
        } else if now.unix >= set {
            Phase::TransitioningToNight
        } else if now.unix >= rise + dur {
            Phase::Day
        } else if now.unix >= rise {
            Phase::TransitioningToDay
        } else {
            Phase::Night
        }
    }

    /// Fixed-mode classification of the local time of day.
    fn fixed_phase(&self, now: &LocalStamp) -> (r: Phase)
        requires
            self.wf(),
            now.wf(),
        ensures
            r == fixed_phase_spec(
                now.secs_of_day as int,
                self.wakeup() as int,
                self.bedtime() as int,
                self.duration_secs(),
            ),
    {
        let dur: u64 = 60 * (self.config.transition.duration_minutes as u64);
        let dm: u32 = (dur % 86400) as u32;
        let sod: u32 = now.secs_of_day;
        let tstart: u32 = if self.bedtime_sod >= dm {
            self.bedtime_sod - dm
        } else {
            self.bedtime_sod + 86400 - dm
        };
        let tend: u32 = if self.wakeup_sod + dm >= 86400 {
            self.wakeup_sod + dm - 86400
        } else {
            self.wakeup_sod + dm
        };
        proof {
            lemma_wrap_mod(self.bedtime_sod as int, self.duration_secs(), tstart as int);
            lemma_wrap_add_mod(self.wakeup_sod as int, self.duration_secs(), tend as int);
        }
        if sod >= self.wakeup_sod && sod < tend {
            Phase::TransitioningToDay
        } else if sod >= tend && sod < tstart {
            Phase::Day
        } else if sod >= tstart && sod < self.bedtime_sod {
            Phase::TransitioningToNight
        } else {
            Phase::Night
        }
    }

    /// The day or night target temperature for the phase of an instant:
    /// the day value through day and the morning transition, the night
    /// value through night and the evening transition.
    pub fn target_temperature_at(&self, now: &LocalStamp) -> (r: u16)
        requires
            self.wf(),
            now.wf(),
        ensures
            self.mode() == Mode::Auto ==> r == temp_for_phase(
                auto_phase_spec(
                    now.unix as int,
                    sunrise_of(self.lat(), self.lon(), now.year, now.month, now.day) as int,
                    sunset_of(self.lat(), self.lon(), now.year, now.month, now.day) as int,
                    self.duration_secs(),
                ),
                self.day_temp(),
                self.night_temp(),
            ),
            self.mode() == Mode::Fixed ==> r == temp_for_phase(
                fixed_phase_spec(
                    now.secs_of_day as int,
                    self.wakeup() as int,
                    self.bedtime() as int,
                    self.duration_secs(),
                ),
                self.day_temp(),
                self.night_temp(),
            ),
    {
        let phase: Phase = self.current_phase_at(now);
        match phase {
            Phase::Day | Phase::TransitioningToDay => self.config.temperature.day,
            Phase::Night | Phase::TransitioningToNight => self.config.temperature.night,
        }
    }
}

/// The target temperature owed in a phase: day's through day and the
/// morning transition, night's otherwise.
pub open spec fn temp_for_phase(p: Phase, day: u16, night: u16) -> u16 {
    match p {
        Phase::Day | Phase::TransitioningToDay => day,
        Phase::Night | Phase::TransitioningToNight => night,
    }
}

/// The wrapped difference `(bed - dur) % 86400` computed without negatives.
proof fn lemma_wrap_mod(bed: int, dur: int, tstart: int)
    requires
        0 <= bed < 86400,
        dur >= 0,
        tstart == if bed >= dur % 86400 {
            bed - dur % 86400
        } else {
            bed + 86400 - dur % 86400
        },
    ensures
        tstart == (bed - dur) % 86400,
        0 <= tstart < 86400,
{
    let dm = dur % 86400;
    vstd::arithmetic::div_mod::lemma_mod_division_less_than_divisor(dur, 86400);
    assert(0 <= dm < 86400);
    vstd::arithmetic::div_mod::lemma_sub_mod_noop(bed, dur, 86400);
    assert((bed - dur) % 86400 == (bed % 86400 - dur % 86400) % 86400);
    assert(bed % 86400 == bed) by {
        vstd::arithmetic::div_mod::lemma_small_mod(bed as nat, 86400);
    };
    if bed >= dm {
        vstd::arithmetic::div_mod::lemma_small_mod((bed - dm) as nat, 86400);
    } else {
        assert((bed - dm) % 86400 == (bed - dm + 86400) % 86400) by {
            vstd::arithmetic::div_mod::lemma_mod_add_multiples_vanish(bed - dm, 86400);
        };
        vstd::arithmetic::div_mod::lemma_small_mod((bed - dm + 86400) as nat, 86400);
    }
}

/// The wrapped sum `(wake + dur) % 86400` computed without overflow.
proof fn lemma_wrap_add_mod(wake: int, dur: int, tend: int)
    requires
        0 <= wake < 86400,
        dur >= 0,
        tend == if wake + dur % 86400 >= 86400 {
            wake + dur % 86400 - 86400
        } else {
            wake + dur % 86400
        },
    ensures
        tend == (wake + dur) % 86400,
        0 <= tend < 86400,
{
    let dm = dur % 86400;
    vstd::arithmetic::div_mod::lemma_mod_division_less_than_divisor(dur, 86400);
    assert(0 <= dm < 86400);
    vstd::arithmetic::div_mod::lemma_add_mod_noop(wake, dur, 86400);
    assert((wake + dur) % 86400 == (wake % 86400 + dur % 86400) % 86400);
    assert(wake % 86400 == wake) by {
        vstd::arithmetic::div_mod::lemma_small_mod(wake as nat, 86400);
    };
    if wake + dm >= 86400 {
        assert((wake + dm) % 86400 == (wake + dm - 86400) % 86400) by {
            vstd::arithmetic::div_mod::lemma_mod_sub_multiples_vanish(wake + dm, 86400);
        };
        vstd::arithmetic::div_mod::lemma_small_mod((wake + dm - 86400) as nat, 86400);
    } else {
        vstd::arithmetic::div_mod::lemma_small_mod((wake + dm) as nat, 86400);
    }
}


/// The active window in Auto mode: from sunset toward night, from sunrise
/// toward day, for the window's length; none outside them or for a zero
/// window.
pub open spec fn auto_window_spec(now: int, rise: int, set: int, dur: int, day: u16, night: u16) -> Option<
    TransitionWindow,
> {
    if dur <= 0 {
        None
    } else if set <= now < set + dur {
        Some(TransitionWindow { start: set as i64, start_temp: day, target_temp: night })
    } else if rise <= now < rise + dur {
        Some(TransitionWindow { start: rise as i64, start_temp: night, target_temp: day })
    } else {
        None
    }
}

/// The active window in Fixed mode against the day's wake and bed
/// instants: from the wake instant toward day, from one window before the
/// bed instant toward night.
pub open spec fn fixed_window_spec(
    now: int,
    wakeup_dt: int,
    bedtime_dt: int,
    dur: int,
    day: u16,
    night: u16,
) -> Option<TransitionWindow> {
    if dur <= 0 {
        None
    } else if wakeup_dt <= now < wakeup_dt + dur {
        Some(TransitionWindow { start: wakeup_dt as i64, start_temp: night, target_temp: day })
    } else if bedtime_dt - dur <= now < bedtime_dt {
        Some(
            TransitionWindow {
                start: (bedtime_dt - dur) as i64,
                start_temp: day,
                target_temp: night,
            },
        )
    } else {
        None
    }
}

/// Computes the Auto-mode window from the day's solar events, mirroring
/// `auto_window_spec`.
pub fn auto_window_from(now: i64, rise: i64, set: i64, dur: i64, day: u16, night: u16) -> (r:
    Option<TransitionWindow>)
    requires
        -100_000_000 <= rise <= 300_000_000_000,
        -100_000_000 <= set <= 300_000_000_000,
        0 <= dur <= 300_000_000_000,
    ensures
        r == auto_window_spec(now as int, rise as int, set as int, dur as int, day, night),
{
    if dur == 0 {
        return None;
    }
    if now >= set && now < set + dur {
        return Some(TransitionWindow { start: set, start_temp: day, target_temp: night });
    }
    if now >= rise && now < rise + dur {
        return Some(TransitionWindow { start: rise, start_temp: night, target_temp: day });
    }
    None
}

/// Computes the Fixed-mode window from the day's wake and bed instants,
/// mirroring `fixed_window_spec`.
pub fn fixed_window_from(
    now: i64,
    wakeup_dt: i64,
    bedtime_dt: i64,
    dur: i64,
    day: u16,
    night: u16,
) -> (r: Option<TransitionWindow>)
    requires
        -100_000_000 <= wakeup_dt <= 300_000_000_000,
        -100_000_000 <= bedtime_dt <= 300_000_000_000,
        0 <= dur <= 300_000_000_000,
    ensures
        r == fixed_window_spec(
            now as int,
            wakeup_dt as int,
            bedtime_dt as int,
            dur as int,
            day,
            night,
        ),
{
    if dur == 0 {
        return None;
    }
    if now >= wakeup_dt && now < wakeup_dt + dur {
        return Some(TransitionWindow { start: wakeup_dt, start_temp: night, target_temp: day });
    }
    if now >= bedtime_dt - dur && now < bedtime_dt {
        return Some(
            TransitionWindow { start: bedtime_dt - dur, start_temp: day, target_temp: night },
        );
    }
    None
}


/// A window is reported exactly while a transitioning phase is active,
/// and it carries that transition's start instant and temperatures.
pub proof fn lemma_window_iff_transitioning(
    now: int,
    rise: int,
    set: int,
    dur: int,
    day: u16,
    night: u16,
)
    requires
        dur >= 0,
        rise + dur <= set,
    ensures
        auto_window_spec(now, rise, set, dur, day, night) is Some <==> (auto_phase_spec(
            now,
            rise,
            set,
            dur,
        ) == Phase::TransitioningToNight || auto_phase_spec(now, rise, set, dur)
            == Phase::TransitioningToDay),
        auto_phase_spec(now, rise, set, dur) == Phase::TransitioningToNight ==> auto_window_spec(
            now,
            rise,
            set,
            dur,
            day,
            night,
        ) == Some(TransitionWindow { start: set as i64, start_temp: day, target_temp: night }),
        auto_phase_spec(now, rise, set, dur) == Phase::TransitioningToDay ==> auto_window_spec(
            now,
            rise,
            set,
            dur,
            day,
            night,
        ) == Some(TransitionWindow { start: rise as i64, start_temp: night, target_temp: day }),
{
    lemma_auto_phase_partition(now, rise, set, dur);
}

/// The next transition start in Auto mode: the coming sunset through day,
/// the coming sunrise through night (today's before sunrise, tomorrow's
/// after sunset), none while a transition is already running.
pub open spec fn auto_next_spec(now: int, rise: int, set: int, rise_next: int, dur: int) -> Option<
    int,
> {
    match auto_phase_spec(now, rise, set, dur) {
        Phase::Day => Some(set),
        Phase::Night => if now >= set + dur {
            Some(rise_next)
        } else {
            Some(rise)
        },
        _ => None,
    }
}

/// In Auto mode the prediction is none exactly while transitioning, and
/// through day (and night before sunrise) it is strictly in the future.
pub proof fn lemma_auto_next(now: int, rise: int, set: int, rise_next: int, dur: int)
    requires
        dur >= 0,
    ensures
        auto_next_spec(now, rise, set, rise_next, dur) is None <==> (auto_phase_spec(
            now,
            rise,
            set,
            dur,
        ) == Phase::TransitioningToDay || auto_phase_spec(now, rise, set, dur)
            == Phase::TransitioningToNight),
        auto_phase_spec(now, rise, set, dur) == Phase::Day ==> auto_next_spec(
            now,
            rise,
            set,
            rise_next,
            dur,
        ) == Some(set) && now < set,
        auto_phase_spec(now, rise, set, dur) == Phase::Night && now < set + dur ==> auto_next_spec(
            now,
            rise,
            set,
            rise_next,
            dur,
        ) == Some(rise) && now < rise,
{
}

/// The next transition start in Fixed mode, for a day anchored at
/// `day_start` (the instant of local midnight): one window before bed
/// through day, the coming wake instant through night.
pub open spec fn fixed_next_spec(
    now: int,
    sod: int,
    wake: int,
    bed: int,
    dur: int,
    day_start: int,
) -> Option<int> {
    match fixed_phase_spec(sod, wake, bed, dur) {
        Phase::Day => Some(day_start + bed - dur),
        Phase::Night => if sod >= bed {
            Some(day_start + 86400 + wake)
        } else {
            Some(day_start + wake)
        },
        _ => None,
    }
}

/// With ordered windows and the day anchored at local midnight, the
/// Fixed-mode prediction is none exactly while transitioning, and
/// otherwise strictly in the future, at most a day away.
pub proof fn lemma_fixed_next_within_day(
    now: int,
    sod: int,
    wake: int,
    bed: int,
    dur: int,
    day_start: int,
)
    requires
        day_start == now - sod,
        0 <= sod < 86400,
        0 <= wake,
        dur >= 0,
        wake + dur <= bed - dur,
        bed < 86400,
    ensures
        fixed_next_spec(now, sod, wake, bed, dur, day_start) is None <==> (fixed_phase_spec(
            sod,
            wake,
            bed,
            dur,
        ) == Phase::TransitioningToDay || fixed_phase_spec(sod, wake, bed, dur)
            == Phase::TransitioningToNight),
        fixed_next_spec(now, sod, wake, bed, dur, day_start) matches Some(v) ==> now < v <= now
            + 86400,
{
    lemma_fixed_phase_partition(sod, wake, bed, dur);
}


/// The Fixed-mode prediction from the day's resolved instants: one window
/// before the bed instant through day, the coming wake instant through
/// night (tomorrow's after bed time, today's before), none while
/// transitioning; a missing instant gives none. Only the instant the
/// phase calls for is consulted.
pub fn fixed_next_from(
    phase: Phase,
    bedtime_dt: Option<i64>,
    wakeup_today: Option<i64>,
    wakeup_next: Option<i64>,
    after_bed: bool,
    dur: i64,
) -> (r: Option<i64>)
    requires
        0 <= dur <= 300_000_000_000,
        bedtime_dt matches Some(b) ==> -100_000_000 <= b <= 300_000_000_000,
    ensures
        r == match phase {
            Phase::Day => match bedtime_dt {
                Some(b) => Some((b - dur) as i64),
                None => None,
            },
            Phase::Night => if after_bed {
                wakeup_next
            } else {
                wakeup_today
            },
            _ => None,
        },
{
    match phase {
        Phase::Day => match bedtime_dt {
            Some(b) => Some(b - dur),
            None => None,
        },
        Phase::Night => if after_bed {
            wakeup_next
        } else {
            wakeup_today
        },
        Phase::TransitioningToNight | Phase::TransitioningToDay => None,
    }
}

impl Schedule {
    /// The active transition window at an instant, if one is running and
    /// the configured window is not empty. In Auto mode the window is
    /// pinned to the day's solar events; in Fixed mode to the day's wake
    /// and bed instants, with the window always containing the instant.
    pub fn transition_window_at(&self, now: &LocalStamp) -> (r: Option<TransitionWindow>)
        requires
            self.wf(),
            now.wf(),
        ensures
            self.mode() == Mode::Auto ==> r == auto_window_spec(
                now.unix as int,
                sunrise_of(self.lat(), self.lon(), now.year, now.month, now.day) as int,
                sunset_of(self.lat(), self.lon(), now.year, now.month, now.day) as int,
                self.duration_secs(),
                self.day_temp(),
                self.night_temp(),
            ),
            self.mode() == Mode::Fixed ==> (r matches Some(w) ==> self.duration_secs() > 0
                && w.start <= now.unix < w.start + self.duration_secs() && ((w.start_temp
                == self.night_temp() && w.target_temp == self.day_temp()) || (w.start_temp
                == self.day_temp() && w.target_temp == self.night_temp()))),
            (self.mode() == Mode::Fixed && self.duration_secs() <= 0) ==> r is None,
    {
        let dur: i64 = 60 * (self.config.transition.duration_minutes as i64);
        match self.config.mode {
            Mode::Auto => {
                let rise: i64 = sunrise_ts(
                    self.config.location.latitude_microdeg,
                    self.config.location.longitude_microdeg,
                    now.year,
                    now.month,
                    now.day,
                );
                let set: i64 = sunset_ts(
                    self.config.location.latitude_microdeg,
                    self.config.location.longitude_microdeg,
                    now.year,
                    now.month,
                    now.day,
                );
                auto_window_from(
                    now.unix,
                    rise,
                    set,
                    dur,
                    self.config.temperature.day,
                    self.config.temperature.night,
                )
            },
            Mode::Fixed => {
                let wakeup_dt: i64 = match local_instant_of(
                    now.year,
                    now.month,
                    now.day,
                    self.wakeup_sod,
                ) {
                    Some(v) => v,
                    None => {
                        return None;
                    },
                };
                let bedtime_dt: i64 = match local_instant_of(
                    now.year,
                    now.month,
                    now.day,
                    self.bedtime_sod,
                ) {
                    Some(v) => v,
                    None => {
                        return None;
                    },
                };
                fixed_window_from(
                    now.unix,
                    wakeup_dt,
                    bedtime_dt,
                    dur,
                    self.config.temperature.day,
                    self.config.temperature.night,
                )
            },
        }
    }

    /// The instant the next transition will start: the coming sunset or
    /// bed-window start through day, the coming sunrise or wake instant
    /// through night, none while already transitioning (the running
    /// window's own boundary is then the relevant event).
    ///
    /// That the prediction is strictly in the future is proved through day
    /// and through night before sunrise (`lemma_auto_next`), and in Fixed
    /// mode under day-anchored instants (`lemma_fixed_next_within_day`).
    /// After sunset it rests on the next date's solar result, whose
    /// trusted bound ties it only to that date's vicinity — and which is 0
    /// where the sun does not cross the horizon, so no general promise is
    /// made; the prediction only times the driving loop's sleep and does
    /// not affect the temperature computation.
    pub fn next_transition_start(&self, now: &LocalStamp) -> (r: Option<i64>)
        requires
            self.wf(),
            now.wf(),
        ensures
            self.mode() == Mode::Auto ==> r == match auto_next_spec(
                now.unix as int,
                sunrise_of(self.lat(), self.lon(), now.year, now.month, now.day) as int,
                sunset_of(self.lat(), self.lon(), now.year, now.month, now.day) as int,
                sunrise_of(
                    self.lat(),
                    self.lon(),
                    next_day_spec(now.year as int, now.month as int, now.day as int).0 as i32,
                    next_day_spec(now.year as int, now.month as int, now.day as int).1 as u8,
                    next_day_spec(now.year as int, now.month as int, now.day as int).2 as u8,
                ) as int,
                self.duration_secs(),
            ) {
                Some(v) => Some(v as i64),
                None => None,
            },
            self.mode() == Mode::Fixed ==> ((fixed_phase_spec(
                now.secs_of_day as int,
                self.wakeup() as int,
                self.bedtime() as int,
                self.duration_secs(),
            ) == Phase::TransitioningToDay || fixed_phase_spec(
                now.secs_of_day as int,
                self.wakeup() as int,
                self.bedtime() as int,
                self.duration_secs(),
            ) == Phase::TransitioningToNight) ==> r is None),
    {
        let dur: i64 = 60 * (self.config.transition.duration_minutes as i64);
        match self.config.mode {
            Mode::Auto => {
                let rise: i64 = sunrise_ts(
                    self.config.location.latitude_microdeg,
                    self.config.location.longitude_microdeg,
                    now.year,
                    now.month,
                    now.day,
                );
                let set: i64 = sunset_ts(
                    self.config.location.latitude_microdeg,
                    self.config.location.longitude_microdeg,
                    now.year,
                    now.month,
                    now.day,
                );
                if now.unix >= set + dur {
                    // night after sunset: tomorrow's sunrise
                    let (y2, m2, d2) = next_day(now.year, now.month, now.day);
                    let rise_next: i64 = sunrise_ts(
                        self.config.location.latitude_microdeg,
                        self.config.location.longitude_microdeg,
                        y2,
                        m2,
                        d2,
                    );
                    Some(rise_next)
                } else if now.unix >= set {
                    None
                } else if now.unix >= rise + dur {
                    Some(set)
                } else if now.unix >= rise {
                    None
                } else {
                    Some(rise)
                }
            },
            Mode::Fixed => {
                let phase: Phase = self.fixed_phase(now);
                let bedtime_dt: Option<i64> = local_instant_of(
                    now.year,
                    now.month,
                    now.day,
                    self.bedtime_sod,
                );
                let wakeup_today: Option<i64> = local_instant_of(
                    now.year,
                    now.month,
                    now.day,
                    self.wakeup_sod,
                );
                let (y2, m2, d2) = next_day(now.year, now.month, now.day);
                let wakeup_next: Option<i64> = local_instant_of(y2, m2, d2, self.wakeup_sod);
                let after_bed: bool = now.secs_of_day >= self.bedtime_sod;
                fixed_next_from(phase, bedtime_dt, wakeup_today, wakeup_next, after_bed, dur)
            },
        }
    }
}

} // verus!
