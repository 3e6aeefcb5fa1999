//! Decision helpers of the driving loop: when to re-send the temperature,
//! where the control file lives, how to seed the engine at startup, and
//! the status-file text.

use crate::scheduler::Phase;
use crate::state::{age_spec, State};
use crate::text::dec_rep;
use crate::transition::interp_micro;
use vstd::prelude::*;
use vstd::string::StrSliceExecFns;
use vstd::string::StringExecFns;

verus! {

/// Whether a freshly computed temperature should be sent to the display:
/// always when deduplication is off or nothing was sent yet, otherwise
/// only when the value changed.
pub fn should_set_temperature(optimize_updates: bool, last_sent: Option<u16>, current: u16) -> (r:
    bool)
    ensures
        r == (!optimize_updates || match last_sent {
            Some(prev) => prev != current,
            None => true,
        }),
{
    if !optimize_updates {
        return true;
    }
    match last_sent {
        Some(prev) => prev != current,
        None => true,
    }
}

/// Index of the last occurrence of `c` in `s`, or -1.
pub open spec fn last_of(s: Seq<char>, c: char) -> int
    decreases s.len(),
{
    if s.len() == 0 {
        -1
    } else if s.last() == c {
        s.len() - 1
    } else {
        last_of(s.drop_last(), c)
    }
}

/// The control-file path beside a status-file path: the extension of the
/// path's last component replaced by `control`, or appended when the
/// component has none. A dot opening the last component names a hidden
/// file, not an extension; trailing separators are not normalized.
pub open spec fn control_file_spec(s: Seq<char>) -> Seq<char> {
    let sep = last_of(s, '/');
    let dot = last_of(s, '.');
    if dot > sep + 1 {
        s.subrange(0, dot) + ".control"@
    } else {
        s + ".control"@
    }
}

/// The last-occurrence index is below the length.
pub proof fn lemma_last_of_bounds(s: Seq<char>, c: char)
    ensures
        -1 <= last_of(s, c) < s.len(),
    decreases s.len(),
{
    if s.len() > 0 && s.last() != c {
        lemma_last_of_bounds(s.drop_last(), c);
    }
}

/// Finds the last occurrence of `c`, mirroring `last_of`; the length
/// stands for "none" so the result stays unsigned.
fn rfind_char(s: &str, c: char) -> (r: usize)
    ensures
        r <= s@.len(),
        r < s@.len() ==> r as int == last_of(s@, c),
        r == s@.len() ==> last_of(s@, c) == -1,
{
    let len: usize = s.unicode_len();
    let mut i: usize = len;
    proof {
        lemma_last_of_bounds(s@, c);
        assert(s@.subrange(0, len as int) =~= s@);
    }
    loop
        invariant
            i <= len,
            len == s@.len(),
            last_of(s@, c) == last_of(s@.subrange(0, i as int), c),
        ensures
            i <= len,
            len == s@.len(),
            i > 0 ==> last_of(s@, c) == i - 1 && s@[i - 1] == c,
            i == 0 ==> last_of(s@, c) == -1,
        decreases i,
    {
        if i == 0 {
            proof {
                assert(s@.subrange(0, 0) =~= Seq::<char>::empty());
            }
            break ;
        }
        if s.get_char(i - 1) == c {
            proof {
                let pre = s@.subrange(0, i as int);
                assert(pre.last() == s@[i - 1]);
            }
            break ;
        }
        proof {
            let pre = s@.subrange(0, i as int);
            assert(pre.last() == s@[i - 1]);
            assert(pre.drop_last() =~= s@.subrange(0, i - 1));
        }
        i = i - 1;
    }
    if i == 0 {
        len
    } else {
        i - 1
    }
}

/// Derives the control-file path from the status-file path, mirroring
/// `control_file_spec`.
pub fn control_file_from_status(status_file: &str) -> (r: String)
    ensures
        r@ == control_file_spec(status_file@),
{
    let len: usize = status_file.unicode_len();
    let sep: usize = rfind_char(status_file, '/');
    let dot: usize = rfind_char(status_file, '.');
    let replace: bool = if dot >= len {
        false
    } else if sep >= len {
        dot > 0
    } else {
        dot > sep + 1
    };
    if replace {
        let mut out: String = String::from_str(status_file.substring_char(0, dot));
        out.append(".control");
        proof {
            assert(out@ =~= control_file_spec(status_file@));
        }
        out
    } else {
        let mut out: String = String::from_str(status_file);
        out.append(".control");
        proof {
            assert(out@ =~= control_file_spec(status_file@));
        }
        out
    }
}

/// The temperature the engine is seeded with at startup: a saved record's
/// resumed temperature when the record is younger than twice the window,
/// the resolver's fresh target otherwise.
pub open spec fn initial_temperature_spec(
    saved: Option<State>,
    now: int,
    duration_minutes: int,
    easing: Seq<char>,
    fallback: u16,
) -> int {
    match saved {
        Some(st) => {
            if age_spec(st, now) < 2 * (60 * duration_minutes) {
                interp_micro(
                    st.transition_start_temp as int,
                    st.target_temp as int,
                    st.elapsed_seconds as int,
                    60 * duration_minutes,
                    crate::easing_parse::parse_easing_spec(easing),
                )
            } else {
                fallback as int
            }
        },
        None => fallback as int,
    }
}

/// Seeds the startup temperature, mirroring `initial_temperature_spec`.
pub fn initial_temperature(
    saved: Option<&State>,
    now_wall: u64,
    duration_minutes: u32,
    easing: &str,
    fallback: u16,
) -> (r: u16)
    ensures
        r as int == initial_temperature_spec(
            match saved {
                Some(st) => Some(*st),
                None => None,
            },
            now_wall as int,
            duration_minutes as int,
            easing@,
            fallback,
        ),
{
    match saved {
        Some(st) => {
            let max_age: u64 = 2 * (60 * (duration_minutes as u64));
            if st.age_seconds_at(now_wall) < max_age {
                crate::state::calculate_temperature_from_state(
                    st,
                    60 * (duration_minutes as u64),
                    easing,
                )
            } else {
                fallback
            }
        },
        None => fallback,
    }
}

/// The phase's status-file name.
pub open spec fn phase_name(p: Phase) -> Seq<char> {
    match p {
        Phase::Day => "day"@,
        Phase::TransitioningToNight => "transitioning_to_night"@,
        Phase::Night => "night"@,
        Phase::TransitioningToDay => "transitioning_to_day"@,
    }
}

/// Progress written with two decimals: micro-units rounded to the nearest
/// hundredth, ties upward.
pub open spec fn progress_rep(micro: int) -> Seq<char> {
    let h = (micro + 5_000) / 10_000;
    let whole = h / 100;
    let frac = h % 100;
    let padding = if frac < 10 {
        "0"@
    } else {
        Seq::<char>::empty()
    };
    dec_rep(whole as nat) + "."@ + padding + dec_rep(frac as nat)
}

/// The status-file text: one `key=value` line each for the temperature,
/// the phase, the target, and the progress.
pub open spec fn status_text_spec(temp: u16, p: Phase, target: u16, progress_micro: int) -> Seq<
    char,
> {
    "temp="@ + dec_rep(temp as nat) + "\nphase="@ + phase_name(p) + "\ntarget="@ + dec_rep(
        target as nat,
    ) + "\nprogress="@ + progress_rep(progress_micro) + "\n"@
}

/// Builds the status-file text, mirroring `status_text_spec`.
pub fn status_text(temp: u16, p: Phase, target: u16, progress_micro: u64) -> (r: String)
    requires
        progress_micro <= 1_000_000,
    ensures
        r@ == status_text_spec(temp, p, target, progress_micro as int),
{
    let mut out: String = String::new();
    out.append("temp=");
    crate::text::push_decimal(&mut out, temp as u64);
    out.append("\nphase=");
    out.append(p.as_str());
    out.append("\ntarget=");
    crate::text::push_decimal(&mut out, target as u64);
    out.append("\nprogress=");
    let h: u64 = (progress_micro + 5_000) / 10_000;
    let whole: u64 = h / 100;
    let frac: u64 = h % 100;
    crate::text::push_decimal(&mut out, whole);
    out.append(".");
    if frac < 10 {
        out.append("0");
    }
    crate::text::push_decimal(&mut out, frac);
    out.append("\n");
    proof {
        assert(out@ =~= status_text_spec(temp, p, target, progress_micro as int));
    }
    out
}


/// One recognized field of the status text, as a spec-level value.
pub enum StatusFieldV {
    Temp(int),
    PhaseName(Seq<char>),
    Target(int),
    Progress(int),
}

/// One recognized field of the status text.
#[derive(Debug, PartialEq, Eq)]
pub enum StatusField {
    Temp(u16),
    PhaseName(String),
    Target(u16),
    Progress(i64),
}

/// `p` is the opening of `s`.
pub open spec fn starts_with(s: Seq<char>, p: Seq<char>) -> bool {
    p.len() <= s.len() && s.subrange(0, p.len() as int) == p
}

/// A temperature value: an optional plus sign, then digits, fitting
/// sixteen bits.
pub open spec fn parse_u16_spec(s: Seq<char>) -> Option<int> {
    if s.len() == 0 {
        None
    } else {
        let body = if s[0] == '+' {
            s.drop_first()
        } else {
            s
        };
        if body.len() >= 1 && crate::text::all_digits(body) && crate::text::digits_val(body)
            <= 65535 {
            Some(crate::text::digits_val(body))
        } else {
            None
        }
    }
}

/// What one line of the status text carries: a `temp=`, `phase=`,
/// `target=` or `progress=` field, or nothing recognizable. A numeric
/// field with an unreadable value is not a field at all, so a reader
/// keeps its previous value, as the driving loop's writer intends.
pub open spec fn parse_status_line_spec(line: Seq<char>) -> Option<StatusFieldV> {
    if starts_with(line, "temp="@) {
        match parse_u16_spec(line.subrange(5, line.len() as int)) {
            Some(v) => Some(StatusFieldV::Temp(v)),
            None => None,
        }
    } else if starts_with(line, "phase="@) {
        Some(StatusFieldV::PhaseName(line.subrange(6, line.len() as int)))
    } else if starts_with(line, "target="@) {
        match parse_u16_spec(line.subrange(7, line.len() as int)) {
            Some(v) => Some(StatusFieldV::Target(v)),
            None => None,
        }
    } else if starts_with(line, "progress="@) {
        match crate::easing_parse::parse_ctrl_spec(line.subrange(9, line.len() as int)) {
            Some(v) => Some(StatusFieldV::Progress(v)),
            None => None,
        }
    } else {
        None
    }
}

/// Whether `s` opens with `p`, mirroring `starts_with`.
fn str_starts_with(s: &str, p: &str) -> (r: bool)
    ensures
        r == starts_with(s@, p@),
{
    let slen: usize = s.unicode_len();
    let plen: usize = p.unicode_len();
    if plen > slen {
        return false;
    }
    let mut i: usize = 0;
    loop
        invariant
            i <= plen,
            plen <= slen,
            slen == s@.len(),
            plen == p@.len(),
            forall|q: int| 0 <= q < i ==> s@[q] == p@[q],
        ensures
            i == plen,
            slen == s@.len(),
            plen == p@.len(),
            forall|q: int| 0 <= q < plen ==> s@[q] == p@[q],
        decreases plen - i,
    {
        if i >= plen {
            break ;
        }
        if s.get_char(i) != p.get_char(i) {
            proof {
                assert(s@.subrange(0, p@.len() as int)[i as int] != p@[i as int]);
            }
            return false;
        }
        i = i + 1;
    }
    proof {
        assert(s@.subrange(0, p@.len() as int) =~= p@);
    }
    true
}

/// Reads a `temp=`/`target=` style value, mirroring `parse_u16_spec`.
fn parse_u16_value(s: &str) -> (r: Option<u16>)
    ensures
        parse_u16_spec(s@) is None ==> r is None,
        parse_u16_spec(s@) matches Some(v) ==> r matches Some(x) && x as int == v,
{
    let len: usize = s.unicode_len();
    if len == 0 {
        return None;
    }
    let start: usize = if s.get_char(0) == '+' {
        1
    } else {
        0
    };
    let ghost body: Seq<char> = if s@[0] == '+' {
        s@.drop_first()
    } else {
        s@
    };
    proof {
        assert(body =~= s@.subrange(start as int, len as int));
    }
    if len == start {
        return None;
    }
    let mut i: usize = start;
    let mut acc: u32 = 0;
    loop
        invariant
            start <= i <= len,
            start <= 1,
            start < len,
            len == s@.len(),
            len >= 1,
            if s@[0] == '+' {
                start == 1
            } else {
                start == 0
            },
            body == s@.subrange(start as int, len as int),
            crate::text::all_digits(body.subrange(0, i - start)),
            acc <= 655_359,
            crate::text::digits_val(body.subrange(0, i - start)) <= 65535 ==> acc
                == crate::text::digits_val(body.subrange(0, i - start)),
            crate::text::digits_val(body.subrange(0, i - start)) > 65535 ==> acc > 65535,
        ensures
            i == len,
            body == s@.subrange(start as int, len as int),
            crate::text::all_digits(body),
            crate::text::digits_val(body) <= 65535 ==> acc == crate::text::digits_val(body),
            crate::text::digits_val(body) > 65535 ==> acc > 65535,
        decreases len - i,
    {
        if i >= len {
            proof {
                assert(body.subrange(0, i - start) =~= body);
            }
            break ;
        }
        let c: char = s.get_char(i);
        let u: u32 = c as u32;
        if u < 48 || u > 57 {
            proof {
                assert(body[i - start] == s@[i as int]);
                assert(!crate::text::all_digits(body));
            }
            return None;
        }
        proof {
            let pref = body.subrange(0, i - start);
            let pref2 = body.subrange(0, i + 1 - start);
            assert(pref2.drop_last() =~= pref);
            assert(pref2.last() == s@[i as int]);
            assert(crate::text::all_digits(pref2)) by {
                assert(forall|q: int| 0 <= q < pref2.len() - 1 ==> #[trigger] pref2[q] == pref[q]);
            };
            assert(crate::text::digits_val(pref2) == crate::text::digits_val(pref) * 10 + (
            s@[i as int] as int - 48));
        }
        if acc <= 65535 {
            acc = acc * 10 + (u - 48);
        }
        i = i + 1;
    }
    if acc > 65535 {
        return None;
    }
    Some(acc as u16)
}

/// Reads one status-text line, mirroring `parse_status_line_spec`.
pub fn parse_status_line(line: &str) -> (r: Option<StatusField>)
    ensures
        parse_status_line_spec(line@) is None ==> r is None,
        parse_status_line_spec(line@) matches Some(StatusFieldV::Temp(v)) ==> r matches Some(
            StatusField::Temp(x),
        ) && x as int == v,
        parse_status_line_spec(line@) matches Some(StatusFieldV::PhaseName(p)) ==> r matches Some(
            StatusField::PhaseName(x),
        ) && x@ == p,
        parse_status_line_spec(line@) matches Some(StatusFieldV::Target(v)) ==> r matches Some(
            StatusField::Target(x),
        ) && x as int == v,
        parse_status_line_spec(line@) matches Some(StatusFieldV::Progress(v)) ==> r matches Some(
            StatusField::Progress(x),
        ) && x as int == v,
{
    let len: usize = line.unicode_len();
    if str_starts_with(line, "temp=") {
        proof {
            reveal_strlit("temp=");
        }
        match parse_u16_value(line.substring_char(5, len)) {
            Some(v) => Some(StatusField::Temp(v)),
            None => None,
        }
    } else if str_starts_with(line, "phase=") {
        proof {
            reveal_strlit("phase=");
        }
        let rest: &str = line.substring_char(6, len);
        Some(StatusField::PhaseName(String::from_str(rest)))
    } else if str_starts_with(line, "target=") {
        proof {
            reveal_strlit("target=");
        }
        match parse_u16_value(line.substring_char(7, len)) {
            Some(v) => Some(StatusField::Target(v)),
            None => None,
        }
    } else if str_starts_with(line, "progress=") {
        proof {
            reveal_strlit("progress=");
        }
        match crate::easing_parse::parse_ctrl(line.substring_char(9, len)) {
            Some(v) => Some(StatusField::Progress(v)),
            None => None,
        }
    } else {
        None
    }
}

} // verus!
