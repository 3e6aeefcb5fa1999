//! The persisted resume record: the four fields of an in-flight transition,
//! their age, the temperature they resume to, and an exact text codec.
//!
//! The record is written as four `key = value` lines, one per field, in a
//! fixed order — the same shape a key/value serializer produces for the
//! struct. Reading it back is proved to reproduce the record exactly.

use crate::easing::Easing;
use crate::easing_parse::parse_easing_spec;
use crate::text::{dec_rep, digits_val, is_digit_char};
use crate::transition::interp_micro;
use vstd::prelude::*;
use vstd::string::StrSliceExecFns;
use vstd::string::StringExecFns;

verus! {

/// A persisted transition: where it started, when, how far it had come,
/// and where it was going.
#[derive(Clone, Copy, Debug, PartialEq, Eq, Structural)]
pub struct State {
    pub transition_start_temp: u16,
    pub transition_start_timestamp: u64,
    pub elapsed_seconds: u64,
    pub target_temp: u16,
}

/// Age of a record at wall-clock time `now`: seconds since the instant the
/// record describes, zero under clock skew; the inner sum saturates rather
/// than wrapping.
pub open spec fn age_spec(v: State, now: int) -> int {
    let busy = if v.transition_start_timestamp as int + v.elapsed_seconds as int
        > 0xffff_ffff_ffff_ffff {
        0xffff_ffff_ffff_ffff as int
    } else {
        v.transition_start_timestamp as int + v.elapsed_seconds as int
    };
    if now >= busy {
        now - busy
    } else {
        0
    }
}

impl State {
    /// Age of the record at an explicit wall-clock reading.
    pub fn age_seconds_at(&self, now: u64) -> (r: u64)
        ensures
            r as int == age_spec(*self, now as int),
    {
        now.saturating_sub(self.transition_start_timestamp.saturating_add(self.elapsed_seconds))
    }

    /// Age of the record now. The clock cannot be pinned by a contract;
    /// `age_seconds_at` carries the exact arithmetic.
    pub fn age_seconds(&self) -> u64 {
        let now: u64 = crate::clock::current_unix_timestamp();
        self.age_seconds_at(now)
    }
}

/// The temperature a resumed transition holds at the record's elapsed
/// time: the target at or past the window's end, the interpolated value
/// otherwise — the same formula the engine itself uses.
pub fn calculate_temperature_from_state(
    state: &State,
    transition_duration_seconds: u64,
    easing: &str,
) -> (r: u16)
    ensures
        r as int == interp_micro(
            state.transition_start_temp as int,
            state.target_temp as int,
            state.elapsed_seconds as int,
            transition_duration_seconds as int,
            parse_easing_spec(easing@),
        ),
{
    let e: Easing = crate::easing_parse::parse_easing(easing);
    crate::transition::interpolate(
        state.transition_start_temp,
        state.target_temp,
        state.elapsed_seconds,
        transition_duration_seconds,
        e,
    )
}

/// The serialized form of a record: four `key = value` lines.
pub open spec fn encode_spec(v: State) -> Seq<char> {
    "transition_start_temp = "@ + dec_rep(v.transition_start_temp as nat) + "\n"@
        + "transition_start_timestamp = "@ + dec_rep(v.transition_start_timestamp as nat) + "\n"@
        + "elapsed_seconds = "@ + dec_rep(v.elapsed_seconds as nat) + "\n"@ + "target_temp = "@
        + dec_rep(v.target_temp as nat) + "\n"@
}

impl State {
    /// Serializes the record, mirroring `encode_spec`.
    pub fn encode(&self) -> (r: String)
        ensures
            r@ == encode_spec(*self),
    {
        let mut out: String = String::new();
        out.append("transition_start_temp = ");
        crate::text::push_decimal(&mut out, self.transition_start_temp as u64);
        out.append("\n");
        out.append("transition_start_timestamp = ");
        crate::text::push_decimal(&mut out, self.transition_start_timestamp);
        out.append("\n");
        out.append("elapsed_seconds = ");
        crate::text::push_decimal(&mut out, self.elapsed_seconds);
        out.append("\n");
        out.append("target_temp = ");
        crate::text::push_decimal(&mut out, self.target_temp as u64);
        out.append("\n");
        proof {
            assert(out@ =~= encode_spec(*self));
        }
        out
    }
}

/// Index of the first non-digit character at or after `i`.
pub open spec fn digits_end(s: Seq<char>, i: int) -> int
    decreases s.len() - i,
{
    if 0 <= i < s.len() && is_digit_char(s[i]) {
        digits_end(s, i + 1)
    } else {
        i
    }
}

/// One `key = value` line read at position `i`: the value and the position
/// after the line's newline. The digits must be non-empty, at most twenty,
/// and fit an unsigned 64-bit value.
pub open spec fn field_at(s: Seq<char>, i: int, key: Seq<char>) -> Option<(int, int)> {
    if 0 <= i && i + key.len() <= s.len() && s.subrange(i, i + key.len()) == key {
        let j = i + key.len();
        let k = digits_end(s, j);
        if k > j && k - j <= 20 && k < s.len() && s[k] == '\n' && digits_val(s.subrange(j, k))
            <= 0xffff_ffff_ffff_ffff {
            Some((digits_val(s.subrange(j, k)), k + 1))
        } else {
            None
        }
    } else {
        None
    }
}

/// A parsed record: the four fields in their fixed order, consuming the
/// whole text, with the temperatures fitting 16 bits.
pub open spec fn decode_spec(s: Seq<char>) -> Option<State> {
    match field_at(s, 0, "transition_start_temp = "@) {
        None => None,
        Some((v1, i1)) => match field_at(s, i1, "transition_start_timestamp = "@) {
            None => None,
            Some((v2, i2)) => match field_at(s, i2, "elapsed_seconds = "@) {
                None => None,
                Some((v3, i3)) => match field_at(s, i3, "target_temp = "@) {
                    None => None,
                    Some((v4, i4)) => {
                        if v1 <= 0xffff && v4 <= 0xffff && i4 == s.len() {
                            Some(
                                State {
                                    transition_start_temp: v1 as u16,
                                    transition_start_timestamp: v2 as u64,
                                    elapsed_seconds: v3 as u64,
                                    target_temp: v4 as u16,
                                },
                            )
                        } else {
                            None
                        }
                    },
                },
            },
        },
    }
}

/// The digit run starting at `i` ends exactly where the digits end.
proof fn lemma_digits_end_at(s: Seq<char>, i: int, k: int)
    requires
        0 <= i <= k <= s.len(),
        forall|j: int| i <= j < k ==> is_digit_char(#[trigger] s[j]),
        k == s.len() || !is_digit_char(s[k]),
    ensures
        digits_end(s, i) == k,
    decreases k - i,
{
    if i < k {
        assert(is_digit_char(s[i]));
        lemma_digits_end_at(s, i + 1, k);
    }
}

/// Round trip: decoding an encoded record gives back the record.
#[verifier::rlimit(100)]
#[verifier::spinoff_prover]
pub proof fn lemma_codec_round_trip(v: State)
    ensures
        decode_spec(encode_spec(v)) == Some(v),
{
    let k1 = "transition_start_temp = "@;
    let k2 = "transition_start_timestamp = "@;
    let k3 = "elapsed_seconds = "@;
    let k4 = "target_temp = "@;
    let nl = "\n"@;
    let d1 = dec_rep(v.transition_start_temp as nat);
    let d2 = dec_rep(v.transition_start_timestamp as nat);
    let d3 = dec_rep(v.elapsed_seconds as nat);
    let d4 = dec_rep(v.target_temp as nat);
    let s = encode_spec(v);
    reveal_strlit("transition_start_temp = ");
    reveal_strlit("transition_start_timestamp = ");
    reveal_strlit("elapsed_seconds = ");
    reveal_strlit("target_temp = ");
    reveal_strlit("\n");
    crate::text::lemma_dec_rep_digits(v.transition_start_temp as nat);
    crate::text::lemma_dec_rep_digits(v.transition_start_timestamp as nat);
    crate::text::lemma_dec_rep_digits(v.elapsed_seconds as nat);
    crate::text::lemma_dec_rep_digits(v.target_temp as nat);
    crate::text::lemma_dec_rep_val(v.transition_start_temp as nat);
    crate::text::lemma_dec_rep_val(v.transition_start_timestamp as nat);
    crate::text::lemma_dec_rep_val(v.elapsed_seconds as nat);
    crate::text::lemma_dec_rep_val(v.target_temp as nat);
    lemma_dec_rep_short(v.transition_start_temp as nat);
    lemma_dec_rep_short(v.transition_start_timestamp as nat);
    lemma_dec_rep_short(v.elapsed_seconds as nat);
    lemma_dec_rep_short(v.target_temp as nat);
    let i0 = 0int;
    let j1 = i0 + k1.len();
    let e1 = j1 + d1.len();
    let i1 = e1 + 1;
    let j2 = i1 + k2.len();
    let e2 = j2 + d2.len();
    let i2 = e2 + 1;
    let j3 = i2 + k3.len();
    let e3 = j3 + d3.len();
    let i3 = e3 + 1;
    let j4 = i3 + k4.len();
    let e4 = j4 + d4.len();
    let i4 = e4 + 1;
    assert(s.len() == i4);
    assert(s.subrange(i0, j1) =~= k1);
    assert(s.subrange(j1, e1) =~= d1);
    assert(s[e1] == '\n');
    assert(s.subrange(i1, j2) =~= k2);
    assert(s.subrange(j2, e2) =~= d2);
    assert(s[e2] == '\n');
    assert(s.subrange(i2, j3) =~= k3);
    assert(s.subrange(j3, e3) =~= d3);
    assert(s[e3] == '\n');
    assert(s.subrange(i3, j4) =~= k4);
    assert(s.subrange(j4, e4) =~= d4);
    assert(s[e4] == '\n');
    lemma_field_block(s, i0, k1, d1);
    lemma_field_block(s, i1, k2, d2);
    lemma_field_block(s, i2, k3, d3);
    lemma_field_block(s, i3, k4, d4);
    assert(field_at(s, i0, k1) == Some((digits_val(d1), i1)));
    assert(field_at(s, i1, k2) == Some((digits_val(d2), i2)));
    assert(field_at(s, i2, k3) == Some((digits_val(d3), i3)));
    assert(field_at(s, i3, k4) == Some((digits_val(d4), i4)));
    assert(digits_val(d1) == v.transition_start_temp as int);
    assert(digits_val(d4) == v.target_temp as int);
}

/// The decimal representation of a 64-bit value has at most twenty digits.
proof fn lemma_dec_rep_short(n: nat)
    requires
        n < 100_000_000_000_000_000_000,
    ensures
        dec_rep(n).len() <= 20,
{
    crate::text::lemma_pow10_twenty();
    lemma_dec_rep_len(n, 20);
}

/// dec_rep of a value below 10^k has at most k digits.
proof fn lemma_dec_rep_len(n: nat, k: nat)
    requires
        k >= 1,
        n < crate::text::pow10(k as int),
    ensures
        dec_rep(n).len() <= k,
    decreases k,
{
    if n < 10 {
    } else {
        assert(k >= 2) by {
            if k == 1 {
                assert(crate::text::pow10(0) == 1);
                assert(crate::text::pow10(1) == 10);
            }
        };
        let p = crate::text::pow10((k - 1) as int);
        assert(crate::text::pow10(k as int) == 10 * p);
        assert(n / 10 < p) by {
            vstd::arithmetic::div_mod::lemma_fundamental_div_mod(n as int, 10);
            assert((n as int) / 10 < p) by (nonlinear_arith)
                requires
                    n as int == 10 * (n as int / 10) + n as int % 10,
                    n as int % 10 >= 0,
                    (n as int) < 10 * p;
        };
        lemma_dec_rep_len(n / 10, (k - 1) as nat);
    }
}

/// Within a well-formed text, a `key digits newline` block at `i` parses to
/// exactly those digits, ending after the newline.
proof fn lemma_field_block(s: Seq<char>, i: int, key: Seq<char>, d: Seq<char>)
    requires
        0 <= i,
        i + key.len() + d.len() + 1 <= s.len(),
        s.subrange(i, i + key.len()) == key,
        s.subrange(i + key.len(), i + key.len() + d.len()) == d,
        s[i + key.len() + d.len()] == '\n',
        crate::text::all_digits(d),
        1 <= d.len() <= 20,
        digits_val(d) <= 0xffff_ffff_ffff_ffff,
    ensures
        field_at(s, i, key) == Some((digits_val(d), i + key.len() + d.len() + 1)),
{
    let j = i + key.len();
    let k = j + d.len();
    assert forall|m: int| j <= m < k implies is_digit_char(#[trigger] s[m]) by {
        assert(s[m] == d[m - j]);
    };
    assert(!is_digit_char('\n'));
    lemma_digits_end_at(s, j, k);
    assert(s.subrange(j, k) == d);
    assert(digits_val(s.subrange(j, k)) == digits_val(d));
}

/// Reads a record back from its serialized form, mirroring `decode_spec`;
/// any deviation from the expected shape gives `None`.
pub fn decode_state(s: &str) -> (r: Option<State>)
    ensures
        r == decode_spec(s@),
{
    let (v1, i1) = match read_field(s, 0, "transition_start_temp = ") {
        Some(p) => p,
        None => {
            return None;
        },
    };
    let (v2, i2) = match read_field(s, i1, "transition_start_timestamp = ") {
        Some(p) => p,
        None => {
            return None;
        },
    };
    let (v3, i3) = match read_field(s, i2, "elapsed_seconds = ") {
        Some(p) => p,
        None => {
            return None;
        },
    };
    let (v4, i4) = match read_field(s, i3, "target_temp = ") {
        Some(p) => p,
        None => {
            return None;
        },
    };
    if v1 <= 0xffff && v4 <= 0xffff && i4 == s.unicode_len() {
        Some(
            State {
                transition_start_temp: v1 as u16,
                transition_start_timestamp: v2,
                elapsed_seconds: v3,
                target_temp: v4 as u16,
            },
        )
    } else {
        None
    }
}

/// Reads one `key = value` line at `i`, mirroring `field_at`.
fn read_field(s: &str, i: usize, key: &str) -> (r: Option<(u64, usize)>)
    requires
        i <= s@.len(),
    ensures
        field_at(s@, i as int, key@) is None ==> r is None,
        field_at(s@, i as int, key@) matches Some(p) ==> r matches Some(q) && q.0 as int == p.0
            && q.1 as int == p.1,
{
    let slen: usize = s.unicode_len();
    let klen: usize = key.unicode_len();
    if slen - i < klen {
        return None;
    }
    // match the key
    let mut m: usize = 0;
    loop
        invariant
            m <= klen,
            i + klen <= slen,
            slen == s@.len(),
            klen == key@.len(),
            forall|q: int| 0 <= q < m ==> s@[i + q] == key@[q],
        ensures
            m == klen,
            slen == s@.len(),
            klen == key@.len(),
            i + klen <= slen,
            forall|q: int| 0 <= q < klen ==> s@[i + q] == key@[q],
        decreases klen - m,
    {
        if m >= klen {
            break ;
        }
        if s.get_char(i + m) != key.get_char(m) {
            proof {
                assert(s@.subrange(i as int, i + key@.len())[m as int] != key@[m as int]);
            }
            return None;
        }
        m = m + 1;
    }
    proof {
        assert(s@.subrange(i as int, i + key@.len()) =~= key@);
    }
    let j: usize = i + klen;
    // scan the digits
    let mut k: usize = j;
    let mut acc: u128 = 0;
    proof {
        crate::text::lemma_pow10_twenty();
    }
    loop
        invariant
            j <= k <= slen,
            slen == s@.len(),
            k - j <= 20,
            klen == key@.len(),
            j == i + klen,
            i + klen <= slen,
            s@.subrange(i as int, i + key@.len()) == key@,
            forall|q: int| j <= q < k ==> is_digit_char(#[trigger] s@[q]),
            acc as int == digits_val(s@.subrange(j as int, k as int)),
            (acc as int) < crate::text::pow10(k - j),
            crate::text::pow10(20) == 100_000_000_000_000_000_000,
        ensures
            j <= k <= slen,
            slen == s@.len(),
            k == s@.len() || !is_digit_char(s@[k as int]),
            k - j <= 20,
            forall|q: int| j <= q < k ==> is_digit_char(#[trigger] s@[q]),
            acc as int == digits_val(s@.subrange(j as int, k as int)),
        decreases slen - k,
    {
        if k >= slen {
            break ;
        }
        let c: char = s.get_char(k);
        let u: u32 = c as u32;
        if u < 48 || u > 57 {
            break ;
        }
        if k - j >= 20 {
            // a twenty-first digit: the length bound rejects the line
            proof {
                lemma_digits_end_at_least(s@, j as int, k + 1);
            }
            return None;
        }
        proof {
            let pref = s@.subrange(j as int, k as int);
            let pref2 = s@.subrange(j as int, k + 1);
            assert(pref2.drop_last() =~= pref);
            assert(pref2.last() == s@[k as int]);
            assert(digits_val(pref2) == digits_val(pref) * 10 + (s@[k as int] as int - 48));
            crate::text::lemma_pow10_le((k - j) as int, 19);
            crate::text::lemma_pow10_twenty();
            assert(crate::text::pow10(19) * 10 == crate::text::pow10(20));
            assert((acc as int) * 10 + 9 < crate::text::pow10(k + 1 - j)) by (nonlinear_arith)
                requires
                    (acc as int) < crate::text::pow10(k - j),
                    crate::text::pow10(k + 1 - j) == 10 * crate::text::pow10(k - j);
        }
        acc = acc * 10 + ((u - 48) as u128);
        k = k + 1;
    }
    proof {
        lemma_digits_end_at(s@, j as int, k as int);
    }
    if k == j {
        return None;
    }
    if k >= slen {
        return None;
    }
    if s.get_char(k) != '\n' {
        return None;
    }
    if acc > 0xffff_ffff_ffff_ffff {
        return None;
    }
    Some((acc as u64, k + 1))
}

/// A digit run of at least `k - j` characters pushes the end of digits to
/// `k` or beyond.
proof fn lemma_digits_end_at_least(s: Seq<char>, j: int, k: int)
    requires
        0 <= j <= k <= s.len(),
        forall|q: int| j <= q < k ==> is_digit_char(#[trigger] s[q]),
    ensures
        digits_end(s, j) >= k,
    decreases k - j,
{
    if j < k {
        lemma_digits_end_at_least(s, j + 1, k);
    } else {
        lemma_digits_end_bounds(s, j);
    }
}

/// The end of a digit run lies between its start and the text's length.
proof fn lemma_digits_end_bounds(s: Seq<char>, i: int)
    requires
        0 <= i <= s.len(),
    ensures
        i <= digits_end(s, i) <= s.len(),
    decreases s.len() - i,
{
    if i < s.len() && is_digit_char(s[i]) {
        lemma_digits_end_bounds(s, i + 1);
    }
}

} // verus!
