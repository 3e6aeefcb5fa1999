//! Parsing of easing identifiers.
//!
//! A recognized identifier names one of the built-in curves; the descriptor
//! form `cubic_bezier(x1,y1,x2,y2)` carries four decimal components, read in
//! micro-units. A malformed descriptor (missing parentheses, wrong component
//! count, unparsable or out-of-range numbers) and any unknown identifier
//! fall back to the linear curve by design.
//!
//! Decimal components are read as `[+|-] digits [ "." digits ]` with at
//! least one digit; fractional digits beyond the sixth are dropped. This
//! grammar is narrower than general floating-point syntax: exponent forms
//! (such as `1e-1`), infinities and not-a-number spellings are not
//! numbers here, and a component beyond ten whole units in magnitude is
//! rejected like an unparsable one — any such descriptor eases linearly.

use crate::easing::{easing_wf, Easing, CTRL_LIMIT};
use crate::text::{all_digits, digits_val, is_digit_char, is_space_char};
use vstd::prelude::*;
use vstd::string::StrSliceExecFns;

verus! {

/// Index of the first non-space character at or after `i`.
pub open spec fn ltrim_idx(s: Seq<char>, i: int) -> int
    decreases s.len() - i,
{
    if 0 <= i < s.len() && is_space_char(s[i]) {
        ltrim_idx(s, i + 1)
    } else {
        i
    }
}

/// Index after the last non-space character before `i`, not below `lo`.
pub open spec fn rtrim_idx(s: Seq<char>, i: int, lo: int) -> int
    decreases i,
{
    if 0 <= lo < i && i <= s.len() && is_space_char(s[i - 1]) {
        rtrim_idx(s, i - 1, lo)
    } else {
        i
    }
}

/// `s` with leading and trailing blanks removed.
pub open spec fn trim_spec(s: Seq<char>) -> Seq<char> {
    let lo = ltrim_idx(s, 0);
    let hi = rtrim_idx(s, s.len() as int, lo);
    s.subrange(lo, hi)
}

/// The left-trim index lies between `i` and the length.
pub proof fn lemma_ltrim_bounds(s: Seq<char>, i: int)
    requires
        0 <= i <= s.len(),
    ensures
        i <= ltrim_idx(s, i) <= s.len(),
    decreases s.len() - i,
{
    if i < s.len() && is_space_char(s[i]) {
        lemma_ltrim_bounds(s, i + 1);
    }
}

/// The right-trim index lies between `lo` and `i`.
pub proof fn lemma_rtrim_bounds(s: Seq<char>, i: int, lo: int)
    requires
        0 <= lo <= i <= s.len(),
    ensures
        lo <= rtrim_idx(s, i, lo) <= i,
    decreases i,
{
    if lo < i && is_space_char(s[i - 1]) {
        lemma_rtrim_bounds(s, i - 1, lo);
    }
}

/// Index of the first occurrence of `c` at or after `from`, or the length
/// of `s` when there is none.
pub open spec fn first_in(s: Seq<char>, from: int, c: char) -> int
    decreases s.len() - from,
{
    if from < 0 || from >= s.len() {
        s.len() as int
    } else if s[from] == c {
        from
    } else {
        first_in(s, from + 1, c)
    }
}

/// The first-occurrence index lies between `from` and the length.
pub proof fn lemma_first_in_bounds(s: Seq<char>, from: int, c: char)
    requires
        0 <= from <= s.len(),
    ensures
        from <= first_in(s, from, c) <= s.len(),
    decreases s.len() - from,
{
    if from < s.len() && s[from] != c {
        lemma_first_in_bounds(s, from + 1, c);
    }
}


/// Micro-unit value of a fractional digit string: the first six digits
/// weighted positionally, further digits dropped.
pub open spec fn frac_micro(f: Seq<char>) -> int {
    if f.len() >= 6 {
        digits_val(f.subrange(0, 6))
    } else {
        digits_val(f) * crate::text::pow10(6 - f.len())
    }
}

/// Value of one trimmed Bézier descriptor component in micro-units:
/// an optional sign, then digits with an optional fractional part;
/// rejected when empty, not plain-decimal (no exponent forms), or out of
/// the accepted range.
pub open spec fn parse_ctrl_spec(s: Seq<char>) -> Option<int> {
    if s.len() == 0 {
        None
    } else {
        let neg = s[0] == '-';
        let body = if s[0] == '-' || s[0] == '+' {
            s.drop_first()
        } else {
            s
        };
        let dot = first_in(body, 0, '.');
        let ip = body.subrange(0, dot);
        let fp = if dot < body.len() {
            body.subrange(dot + 1, body.len() as int)
        } else {
            Seq::<char>::empty()
        };
        if all_digits(ip) && all_digits(fp) && ip.len() + fp.len() >= 1 {
            let v = digits_val(ip) * 1_000_000 + frac_micro(fp);
            let sv = if neg {
                -v
            } else {
                v
            };
            if -(CTRL_LIMIT as int) <= sv <= CTRL_LIMIT as int {
                Some(sv)
            } else {
                None
            }
        } else {
            None
        }
    }
}

/// The four components of a `cubic_bezier(...)` descriptor, or `None` when
/// the descriptor is malformed.
pub open spec fn parse_bezier_spec(s: Seq<char>) -> Option<(int, int, int, int)> {
    let t = trim_spec(s);
    if t.len() >= 14 && t.subrange(0, 13) == "cubic_bezier("@ && t[t.len() - 1] == ')' {
        let inner = t.subrange(13, t.len() - 1);
        let n = inner.len() as int;
        let c1 = first_in(inner, 0, ',');
        let c2 = first_in(inner, c1 + 1, ',');
        let c3 = first_in(inner, c2 + 1, ',');
        if c1 < n && c2 < n && c3 < n && first_in(inner, c3 + 1, ',') == n {
            let p1 = parse_ctrl_spec(trim_spec(inner.subrange(0, c1)));
            let p2 = parse_ctrl_spec(trim_spec(inner.subrange(c1 + 1, c2)));
            let p3 = parse_ctrl_spec(trim_spec(inner.subrange(c2 + 1, c3)));
            let p4 = parse_ctrl_spec(trim_spec(inner.subrange(c3 + 1, n)));
            if p1 is Some && p2 is Some && p3 is Some && p4 is Some {
                Some((p1->Some_0, p2->Some_0, p3->Some_0, p4->Some_0))
            } else {
                None
            }
        } else {
            None
        }
    } else {
        None
    }
}

/// The curve named by an easing identifier; anything unrecognized is the
/// linear curve.
pub open spec fn parse_easing_spec(s: Seq<char>) -> Easing {
    if s == "linear"@ {
        Easing::Linear
    } else if s == "ease_in"@ {
        Easing::EaseIn
    } else if s == "ease_out"@ {
        Easing::EaseOut
    } else if s == "ease_in_out"@ {
        Easing::EaseInOut
    } else if s == "sine"@ {
        Easing::Sine
    } else if s == "smooth"@ {
        Easing::Smooth
    } else if s == "smoother"@ {
        Easing::Smoother
    } else {
        match parse_bezier_spec(s) {
            Some(q) => Easing::Bezier {
                x1: q.0 as i64,
                y1: q.1 as i64,
                x2: q.2 as i64,
                y2: q.3 as i64,
            },
            None => Easing::Linear,
        }
    }
}

/// A parsed curve is always within the accepted parameter range.
pub proof fn lemma_parse_easing_wf(s: Seq<char>)
    ensures
        easing_wf(parse_easing_spec(s)),
{
}

/// Whether `c` is a blank character.
fn char_is_space(c: char) -> (r: bool)
    ensures
        r == is_space_char(c),
{
    c == ' ' || c == '\t'
}

/// Trims leading and trailing blanks, mirroring `trim_spec`.
fn trim_str<'a>(s: &'a str) -> (r: &'a str)
    ensures
        r@ == trim_spec(s@),
{
    let len: usize = s.unicode_len();
    let mut lo: usize = 0;
    proof {
        lemma_ltrim_bounds(s@, 0);
    }
    loop
        invariant
            lo <= len,
            len == s@.len(),
            ltrim_idx(s@, lo as int) == ltrim_idx(s@, 0),
        ensures
            lo <= len,
            lo as int == ltrim_idx(s@, 0),
            len == s@.len(),
        decreases len - lo,
    {
        if lo >= len {
            break ;
        }
        if !char_is_space(s.get_char(lo)) {
            break ;
        }
        lo = lo + 1;
    }
    let mut hi: usize = len;
    loop
        invariant
            lo <= hi <= len,
            len == s@.len(),
            lo as int == ltrim_idx(s@, 0),
            rtrim_idx(s@, hi as int, lo as int) == rtrim_idx(s@, len as int, lo as int),
        ensures
            lo <= hi <= len,
            len == s@.len(),
            lo as int == ltrim_idx(s@, 0),
            hi as int == rtrim_idx(s@, len as int, lo as int),
        decreases hi,
    {
        if hi <= lo {
            break ;
        }
        if !char_is_space(s.get_char(hi - 1)) {
            break ;
        }
        hi = hi - 1;
    }
    s.substring_char(lo, hi)
}

/// Finds the first comma at or after `from`, mirroring `first_in`.
fn find_comma(s: &str, from: usize) -> (r: usize)
    requires
        from <= s@.len(),
    ensures
        r as int == first_in(s@, from as int, ','),
        from <= r <= s@.len(),
{
    let len: usize = s.unicode_len();
    let mut i: usize = from;
    proof {
        lemma_first_in_bounds(s@, from as int, ',');
    }
    loop
        invariant
            from <= i <= len,
            len == s@.len(),
            first_in(s@, i as int, ',') == first_in(s@, from as int, ','),
        ensures
            i as int == first_in(s@, from as int, ','),
            from <= i <= len,
            len == s@.len(),
        decreases len - i,
    {
        if i >= len {
            break ;
        }
        if s.get_char(i) == ',' {
            break ;
        }
        i = i + 1;
    }
    i
}

/// Parses one small decimal number into micro-units, mirroring
/// `parse_ctrl_spec`; used for Bézier descriptor components and for the
/// progress field of the status text.
#[verifier::rlimit(100)]
pub fn parse_ctrl(s: &str) -> (r: Option<i64>)
    ensures
        parse_ctrl_spec(s@) is None ==> r is None,
        parse_ctrl_spec(s@) matches Some(v) ==> r matches Some(x) && x as int == v,
{
    let len: usize = s.unicode_len();
    if len == 0 {
        return None;
    }
    let c0: char = s.get_char(0);
    let neg: bool = c0 == '-';
    let start: usize = if c0 == '-' || c0 == '+' {
        1
    } else {
        0
    };
    let ghost body: Seq<char> = if c0 == '-' || c0 == '+' {
        s@.drop_first()
    } else {
        s@
    };
    proof {
        assert(body =~= s@.subrange(start as int, len as int));
    }
    // integer part: digits until a dot or the end
    let mut i: usize = start;
    let mut acc: u64 = 0;
    loop
        invariant
            start <= i <= len,
            len == s@.len(),
            start <= 1,
            body == s@.subrange(start as int, len as int),
            forall|j: int| 0 <= j < i - start ==> body[j] != '.',
            all_digits(body.subrange(0, i - start)),
            acc <= 100_000_010,
            digits_val(body.subrange(0, i - start)) <= 10_000_000 ==> acc == digits_val(
                body.subrange(0, i - start),
            ),
            digits_val(body.subrange(0, i - start)) > 10_000_000 ==> acc > 10_000_000,
        ensures
            start <= i <= len,
            len == s@.len(),
            body == s@.subrange(start as int, len as int),
            forall|j: int| 0 <= j < i - start ==> body[j] != '.',
            all_digits(body.subrange(0, i - start)),
            digits_val(body.subrange(0, i - start)) <= 10_000_000 ==> acc == digits_val(
                body.subrange(0, i - start),
            ),
            digits_val(body.subrange(0, i - start)) > 10_000_000 ==> acc > 10_000_000,
            i == len || s@[i as int] == '.' || !is_digit_char(s@[i as int]),
            i < len && s@[i as int] != '.' ==> !is_digit_char(s@[i as int]),
        decreases len - i,
    {
        if i >= len {
            break ;
        }
        let c: char = s.get_char(i);
        if c == '.' {
            break ;
        }
        let u: u32 = c as u32;
        if u < 48 || u > 57 {
            break ;
        }
        let d: u64 = (u - 48) as u64;
        proof {
            let pref = body.subrange(0, i - start);
            let pref2 = body.subrange(0, i + 1 - start);
            assert(pref2.drop_last() =~= pref);
            assert(pref2.last() == s@[i as int]);
            assert(is_digit_char(s@[i as int]));
            assert(digits_val(pref2) == digits_val(pref) * 10 + (s@[i as int] as int - 48));
            assert(all_digits(pref2)) by {
                assert(forall|j: int|
                    0 <= j < pref2.len() - 1 ==> #[trigger] pref2[j] == pref[j]);
            };
        }
        if acc <= 10_000_000 {
            acc = acc * 10 + d;
        }
        i = i + 1;
    }
    let int_digits: usize = i - start;
    // a non-digit other than the dot is malformed
    if i < len && s.get_char(i) != '.' {
        proof {
            let dot = first_in(body, 0, '.');
            lemma_first_in_bounds(body, 0, '.');
            assert(forall|j: int| 0 <= j < i - start ==> body[j] != '.');
            assert(body[i - start] != '.');
            assert(dot > i - start) by {
                lemma_first_in_after(body, 0, '.', i + 1 - start);
            };
            let ip = body.subrange(0, dot);
            assert(ip[i - start] == body[i - start]);
            assert(!is_digit_char(ip[i - start]));
            assert(!all_digits(ip));
        }
        return None;
    }
    proof {
        let dot = first_in(body, 0, '.');
        if i < len {
            assert(body[i - start] == '.');
            lemma_first_in_at(body, 0, '.', i - start);
        } else {
            lemma_first_in_none(body, 0, '.');
        }
        assert(dot == i - start);
    }
    // fractional part
    let mut fv: u64 = 0;
    let mut fcount: u64 = 0;
    let mut j: usize = if i < len {
        i + 1
    } else {
        i
    };
    let fstart: usize = j;
    let ghost fp: Seq<char> = if (i as int - start as int) < body.len() {
        body.subrange(i + 1 - start, body.len() as int)
    } else {
        Seq::<char>::empty()
    };
    proof {
        if fstart < len {
            assert(fp =~= s@.subrange(fstart as int, len as int));
        } else {
            assert(fp =~= Seq::<char>::empty());
        }
    }
    loop
        invariant
            fstart <= j <= len,
            len == s@.len(),
            fp.len() == len - fstart,
            forall|k: int| 0 <= k < fp.len() ==> fp[k] == s@[fstart + k],
            all_digits(fp.subrange(0, j - fstart)),
            fcount == if j - fstart >= 6 {
                6int
            } else {
                j - fstart
            },
            fv == digits_val(fp.subrange(0, fcount as int)),
            fv <= 999_999,
        ensures
            len == s@.len(),
            fstart <= j <= len,
            j == len || !is_digit_char(s@[j as int]),
            all_digits(fp.subrange(0, j - fstart)),
            fcount == if j - fstart >= 6 {
                6int
            } else {
                j - fstart
            },
            fv == digits_val(fp.subrange(0, fcount as int)),
            fv <= 999_999,
        decreases len - j,
    {
        if j >= len {
            break ;
        }
        let c: char = s.get_char(j);
        let u: u32 = c as u32;
        if u < 48 || u > 57 {
            break ;
        }
        proof {
            let pref = fp.subrange(0, j - fstart);
            let pref2 = fp.subrange(0, j + 1 - fstart);
            assert(pref2.drop_last() =~= pref);
            assert(pref2.last() == s@[j as int]);
            assert(all_digits(pref2)) by {
                assert(forall|k: int|
                    0 <= k < pref2.len() - 1 ==> #[trigger] pref2[k] == pref[k]);
            };
        }
        if fcount < 6 {
            proof {
                let prefc = fp.subrange(0, fcount as int);
                let prefc2 = fp.subrange(0, fcount + 1);
                assert(prefc2.drop_last() =~= prefc);
                assert(prefc2.last() == fp[fcount as int]);
                assert(fp[fcount as int] == s@[j as int]);
                assert(digits_val(prefc2) == digits_val(prefc) * 10 + (s@[j as int] as int - 48));
                assert(all_digits(prefc)) by {
                    assert(forall|m: int|
                        0 <= m < prefc.len() ==> #[trigger] prefc[m] == fp[m]);
                };
                crate::text::lemma_digits_val_bound(prefc);
                crate::text::lemma_pow10_table();
                crate::text::lemma_pow10_le(fcount as int, 5);
                assert(digits_val(prefc) <= 99_999);
            }
            fv = fv * 10 + ((u - 48) as u64);
            fcount = fcount + 1;
        }
        j = j + 1;
    }
    if j < len {
        // a non-digit inside the fractional part is malformed
        proof {
            let k = j - fstart;
            assert(fp[k] == s@[j as int]);
            assert(!all_digits(fp));
        }
        return None;
    }
    proof {
        assert(fp.subrange(0, j - fstart) =~= fp);
    }
    if int_digits == 0 && len == fstart {
        // no digits at all (also covers a bare sign or a bare dot)
        proof {
            let dot = first_in(body, 0, '.');
            let ip = body.subrange(0, dot);
            assert(ip.len() == 0);
            assert(fp.len() == 0);
        }
        return None;
    }
    // scale a short fractional part to micro-units
    let mut scale_pow: u64 = 1;
    let mut k: u64 = fcount;
    proof {
        crate::text::lemma_pow10_bound(6 - fcount as int);
    }
    loop
        invariant
            fcount <= k <= 6,
            crate::text::pow10(6 - k as int) * scale_pow == crate::text::pow10(6 - fcount as int),
            1 <= scale_pow <= 1_000_000,
        ensures
            k == 6,
            scale_pow == crate::text::pow10(6 - fcount as int),
        decreases 6 - k,
    {
        if k >= 6 {
            proof {
                assert(crate::text::pow10(0) == 1);
            }
            break ;
        }
        proof {
            crate::text::lemma_pow10_step(6 - k as int);
            crate::text::lemma_pow10_bound(6 - k as int);
            crate::text::lemma_pow10_bound(6 - fcount as int);
            assert(crate::text::pow10(6 - (k + 1) as int) * (scale_pow * 10) == crate::text::pow10(6 - fcount as int))
                by (nonlinear_arith)
                requires
                    crate::text::pow10(6 - k as int) * scale_pow == crate::text::pow10(6 - fcount as int),
                    crate::text::pow10(6 - k as int) == 10 * crate::text::pow10(6 - (k + 1) as int);
            assert(scale_pow * 10 <= 1_000_000) by (nonlinear_arith)
                requires
                    crate::text::pow10(6 - (k + 1) as int) * (scale_pow * 10) == crate::text::pow10(6 - fcount as int),
                    crate::text::pow10(6 - fcount as int) <= 1_000_000,
                    crate::text::pow10(6 - (k + 1) as int) >= 1,
                    scale_pow >= 1;
        }
        scale_pow = scale_pow * 10;
        k = k + 1;
    }
    proof {
        assert(fv * scale_pow <= 999_999 * 1_000_000) by (nonlinear_arith)
            requires fv <= 999_999, scale_pow <= 1_000_000, fv >= 0, scale_pow >= 0;
    }
    let frac_scaled: u64 = fv * scale_pow;
    proof {
        if fp.len() >= 6 {
            assert(fcount == 6);
            assert(scale_pow == 1);
            assert(frac_micro(fp) == digits_val(fp.subrange(0, 6)));
        } else {
            assert(fcount == fp.len());
            assert(fp.subrange(0, fcount as int) =~= fp);
            assert(frac_micro(fp) == digits_val(fp) * crate::text::pow10(6 - fp.len()));
        }
        lemma_frac_micro_bound(fp);
    }
    if acc > 10 {
        // value is at least 11 whole units: past the accepted range
        proof {
            let dot = first_in(body, 0, '.');
            let ip = body.subrange(0, dot);
            assert(digits_val(ip) > 10);
            assert(digits_val(ip) * 1_000_000 >= 11 * 1_000_000) by (nonlinear_arith)
                requires digits_val(ip) >= 11;
            assert(frac_micro(fp) >= 0) by {
                lemma_frac_micro_bound(fp);
            };
        }
        return None;
    }
    let v: u64 = acc * 1_000_000 + frac_scaled;
    proof {
        let dot = first_in(body, 0, '.');
        let ip = body.subrange(0, dot);
        assert(ip =~= body.subrange(0, int_digits as int));
        assert(digits_val(ip) == acc);
        assert(v == digits_val(ip) * 1_000_000 + frac_micro(fp));
    }
    if v > 10_000_000 {
        return None;
    }
    if neg {
        Some(-(v as i64))
    } else {
        Some(v as i64)
    }
}

/// If `c` does not occur before `k`, the first occurrence is at or past `k`.
proof fn lemma_first_in_after(s: Seq<char>, from: int, c: char, k: int)
    requires
        0 <= from <= k <= s.len(),
        forall|j: int| from <= j < k ==> s[j] != c,
    ensures
        first_in(s, from, c) >= k,
    decreases k - from,
{
    if from < k {
        assert(s[from] != c);
        lemma_first_in_after(s, from + 1, c, k);
    } else {
        lemma_first_in_bounds(s, from, c);
    }
}

/// If `c` occurs at `k` and not before, the first occurrence is `k`.
proof fn lemma_first_in_at(s: Seq<char>, from: int, c: char, k: int)
    requires
        0 <= from <= k < s.len(),
        s[k] == c,
        forall|j: int| from <= j < k ==> s[j] != c,
    ensures
        first_in(s, from, c) == k,
    decreases k - from,
{
    if from < k {
        lemma_first_in_at(s, from + 1, c, k);
    }
}

/// If `c` occurs nowhere, the first occurrence is the length.
proof fn lemma_first_in_none(s: Seq<char>, from: int, c: char)
    requires
        0 <= from <= s.len(),
        forall|j: int| from <= j < s.len() ==> s[j] != c,
    ensures
        first_in(s, from, c) == s.len(),
    decreases s.len() - from,
{
    if from < s.len() {
        lemma_first_in_none(s, from + 1, c);
    }
}


/// The fractional micro-value is within [0, 999999] for digit strings.
proof fn lemma_frac_micro_bound(f: Seq<char>)
    requires
        all_digits(f),
    ensures
        0 <= frac_micro(f) <= 999_999,
{
    crate::text::lemma_pow10_table();
    if f.len() >= 6 {
        assert(all_digits(f.subrange(0, 6))) by {
            assert(forall|j: int|
                0 <= j < 6 ==> #[trigger] f.subrange(0, 6)[j] == f[j]);
        };
        crate::text::lemma_digits_val_bound(f.subrange(0, 6));
    } else {
        crate::text::lemma_digits_val_bound(f);
        crate::text::lemma_pow10_bound(6 - f.len());
        let dv = digits_val(f);
        let p = crate::text::pow10(6 - f.len());
        assert(dv * p <= (crate::text::pow10(f.len() as int) - 1) * p) by (nonlinear_arith)
            requires dv <= crate::text::pow10(f.len() as int) - 1, p >= 1;
        crate::text::lemma_pow10_mul(f.len() as int, 6 - f.len());
        assert((crate::text::pow10(f.len() as int) - 1) * p == crate::text::pow10(f.len() as int) * p - p)
            by (nonlinear_arith);
        assert(dv * p >= 0) by (nonlinear_arith)
            requires dv >= 0, p >= 1;
    }
}







/// Parses a whole `cubic_bezier(...)` descriptor, mirroring
/// `parse_bezier_spec`.
fn parse_bezier(s: &str) -> (r: Option<(i64, i64, i64, i64)>)
    ensures
        parse_bezier_spec(s@) is None ==> r is None,
        parse_bezier_spec(s@) matches Some(q) ==> r matches Some(x) && x.0 as int == q.0
            && x.1 as int == q.1 && x.2 as int == q.2 && x.3 as int == q.3,
{
    let t: &str = trim_str(s);
    let tlen: usize = t.unicode_len();
    if tlen < 14 {
        return None;
    }
    let pre: &str = t.substring_char(0, 13);
    if !crate::text::str_eq(pre, "cubic_bezier(") {
        return None;
    }
    if t.get_char(tlen - 1) != ')' {
        return None;
    }
    let inner: &str = t.substring_char(13, tlen - 1);
    let ilen: usize = inner.unicode_len();
    let c1: usize = find_comma(inner, 0);
    if c1 >= ilen {
        return None;
    }
    let c2: usize = find_comma(inner, c1 + 1);
    if c2 >= ilen {
        return None;
    }
    let c3: usize = find_comma(inner, c2 + 1);
    if c3 >= ilen {
        return None;
    }
    if find_comma(inner, c3 + 1) < ilen {
        return None;
    }
    let p1 = parse_ctrl(trim_str(inner.substring_char(0, c1)));
    let p2 = parse_ctrl(trim_str(inner.substring_char(c1 + 1, c2)));
    let p3 = parse_ctrl(trim_str(inner.substring_char(c2 + 1, c3)));
    let p4 = parse_ctrl(trim_str(inner.substring_char(c3 + 1, ilen)));
    match (p1, p2, p3, p4) {
        (Some(a), Some(b), Some(c), Some(d)) => Some((a, b, c, d)),
        _ => None,
    }
}

/// Parses an easing identifier, mirroring `parse_easing_spec`; the result
/// is always within the accepted parameter range.
pub fn parse_easing(s: &str) -> (e: Easing)
    ensures
        e == parse_easing_spec(s@),
        easing_wf(e),
{
    if crate::text::str_eq(s, "linear") {
        Easing::Linear
    } else if crate::text::str_eq(s, "ease_in") {
        Easing::EaseIn
    } else if crate::text::str_eq(s, "ease_out") {
        Easing::EaseOut
    } else if crate::text::str_eq(s, "ease_in_out") {
        Easing::EaseInOut
    } else if crate::text::str_eq(s, "sine") {
        Easing::Sine
    } else if crate::text::str_eq(s, "smooth") {
        Easing::Smooth
    } else if crate::text::str_eq(s, "smoother") {
        Easing::Smoother
    } else {
        match parse_bezier(s) {
            Some((a, b, c, d)) => Easing::Bezier { x1: a, y1: b, x2: c, y2: d },
            None => Easing::Linear,
        }
    }
}

/// Applies the curve named by `easing` to progress `t` in micro-units;
/// unknown identifiers and malformed descriptors ease linearly.
pub fn apply_easing(t: u64, easing: &str) -> (r: u64)
    requires
        t <= crate::easing::SCALE,
    ensures
        r as int == crate::easing::eased_micro(parse_easing_spec(easing@), t as int),
        r <= crate::easing::SCALE,
{
    let e = parse_easing(easing);
    crate::easing::ease_eval(e, t)
}

} // verus!
