//! Duration normalization and evaluation.
//!
//! Human shorthand such as `30d`, `2w`, `6M`, `1y`, `12h`, `30m`, `45s` is
//! first rewritten into canonical interval notation (`P30D`, `PT12H`, ...);
//! unit case matters: uppercase `M` is months, lowercase `m` is minutes.
//! A canonical string is then evaluated into an exact millisecond count with
//! fixed constants (day = 24 h, week = 7 d, month = 30 d, year = 365 d).
//! A zero-millisecond result is rejected: a zero-length prune window is never
//! meaningful.

use vstd::prelude::*;
use crate::bytes::{is_digit, is_ws, trim_seq, trim_end_seq, upper_byte, upper_seq};
use crate::bytes::{digit_byte, find_byte, subvec, to_upper, trim, ws_byte};
use crate::bytes::{dv, run_end, lemma_run_end, digit_run, parse_digits, idx_from,
    lemma_idx_from};
use crate::bytes::{lemma_dv_nonneg, lemma_dv_mono};
use crate::bytes::push_all;

verus! {

pub const MS_PER_SECOND: u64 = 1000;

pub const MS_PER_MINUTE: u64 = 60 * MS_PER_SECOND;

pub const MS_PER_HOUR: u64 = 60 * MS_PER_MINUTE;

pub const MS_PER_DAY: u64 = 24 * MS_PER_HOUR;

pub const MS_PER_WEEK: u64 = 7 * MS_PER_DAY;

pub const MS_PER_MONTH: u64 = 30 * MS_PER_DAY;

pub const MS_PER_YEAR: u64 = 365 * MS_PER_DAY;

#[derive(Debug, Clone, Copy, PartialEq, Eq, Structural)]
pub enum DurationError {
    /// The input is empty or only whitespace.
    EmptyInput,
    /// The input evaluates to zero milliseconds (including unparsable text).
    InvalidFormat,
    /// The millisecond total does not fit in a `u64`.
    TooLarge,
    /// A fractional component has more than nine digits.
    FractionTooLong,
}

pub open spec fn pow10(k: nat) -> int
    decreases k,
{
    if k == 0 {
        1
    } else {
        10 * pow10((k - 1) as nat)
    }
}

/// Milliseconds of one canonical unit letter; date and time positions use
/// different alphabets (`M` is months before `T` and minutes after it).
pub open spec fn unit_ms(time: bool, u: u8) -> Option<u64> {
    if time {
        if u == 72 {
            Some(MS_PER_HOUR)
        } else if u == 77 {
            Some(MS_PER_MINUTE)
        } else if u == 83 {
            Some(MS_PER_SECOND)
        } else {
            None
        }
    } else {
        if u == 89 {
            Some(MS_PER_YEAR)
        } else if u == 77 {
            Some(MS_PER_MONTH)
        } else if u == 87 {
            Some(MS_PER_WEEK)
        } else if u == 68 {
            Some(MS_PER_DAY)
        } else {
            None
        }
    }
}

/// A duration component (`<digits>[.<digits>]<unit>`) starting at `i`:
/// its millisecond value, the index just past it, and its fraction length.
pub open spec fn comp_at(s: Seq<u8>, i: int, time: bool) -> Option<(int, int, int)> {
    let d1e = run_end(s, i);
    if d1e == i {
        None
    } else {
        let fe = if d1e + 1 < s.len() && s[d1e] == 46 && is_digit(s[d1e + 1]) {
            run_end(s, d1e + 1)
        } else {
            d1e
        };
        if fe < s.len() && unit_ms(time, s[fe]).is_some() {
            let u = unit_ms(time, s[fe]).unwrap() as int;
            let fd = if fe > d1e {
                fe - d1e - 1
            } else {
                0
            };
            let ms = dv(s, i, d1e) * u + if fd > 0 {
                (dv(s, d1e + 1, fe) * u) / pow10(fd as nat)
            } else {
                0
            };
            Some((ms, fe + 1, fd))
        } else {
            None
        }
    }
}

/// Total milliseconds of all components found scanning `s` from `i` on;
/// text between components is skipped.
pub open spec fn scan_ms(s: Seq<u8>, i: int, time: bool) -> int
    decreases s.len() - i,
    via scan_ms_decreases
{
    if !(0 <= i < s.len()) {
        0
    } else {
        match comp_at(s, i, time) {
            Some((ms, ni, fd)) => ms + scan_ms(s, ni, time),
            None => scan_ms(s, i + 1, time),
        }
    }
}

#[via_fn]
proof fn scan_ms_decreases(s: Seq<u8>, i: int, time: bool) {
    if 0 <= i < s.len() {
        lemma_run_end(s, i);
        let d1e = run_end(s, i);
        if d1e + 1 < s.len() && s[d1e] == 46 && is_digit(s[d1e + 1]) {
            lemma_run_end(s, d1e + 1);
        }
    }
}

/// Some component scanned from `i` carries a fraction of more than nine
/// digits, which the evaluator does not support.
pub open spec fn scan_long_frac(s: Seq<u8>, i: int, time: bool) -> bool
    decreases s.len() - i,
    via scan_long_frac_decreases
{
    if !(0 <= i < s.len()) {
        false
    } else {
        match comp_at(s, i, time) {
            Some((ms, ni, fd)) => fd > 9 || scan_long_frac(s, ni, time),
            None => scan_long_frac(s, i + 1, time),
        }
    }
}

#[via_fn]
proof fn scan_long_frac_decreases(s: Seq<u8>, i: int, time: bool) {
    if 0 <= i < s.len() {
        lemma_run_end(s, i);
        let d1e = run_end(s, i);
        if d1e + 1 < s.len() && s[d1e] == 46 && is_digit(s[d1e + 1]) {
            lemma_run_end(s, d1e + 1);
        }
    }
}

/// Millisecond total of a canonical interval string: the date components
/// before the `T` marker and the time components after it. Text not starting
/// with `P` (after uppercasing) counts zero.
pub open spec fn iso_ms_total(s: Seq<u8>) -> int {
    let up = upper_seq(s);
    if up.len() == 0 || up[0] != 80 {
        0
    } else {
        let t = idx_from(up, 84, 1);
        scan_ms(up.subrange(1, t), 0, false) + if t < up.len() {
            scan_ms(up.subrange(t + 1, up.len() as int), 0, true)
        } else {
            0
        }
    }
}

/// Some component of the canonical string carries an unsupported fraction.
pub open spec fn iso_long_frac(s: Seq<u8>) -> bool {
    let up = upper_seq(s);
    if up.len() == 0 || up[0] != 80 {
        false
    } else {
        let t = idx_from(up, 84, 1);
        scan_long_frac(up.subrange(1, t), 0, false) || (t < up.len() && scan_long_frac(
            up.subrange(t + 1, up.len() as int),
            0,
            true,
        ))
    }
}

/// The value part of shorthand: digits, optionally one dot with digits on
/// both sides.
pub open spec fn is_digits_seq(v: Seq<u8>) -> bool {
    v.len() > 0 && forall|i: int| 0 <= i < v.len() ==> is_digit(v[i])
}

pub open spec fn is_value_seq(v: Seq<u8>) -> bool {
    is_digits_seq(v) || exists|k: int|
        0 < k < v.len() && v[k] == 46 && is_digits_seq(v.subrange(0, k)) && is_digits_seq(
            v.subrange(k + 1, v.len() as int),
        )
}

/// Canonical unit letter of a shorthand unit, split into date units
/// (`d w M y`, either case except months) and time units (`h m s`).
pub open spec fn shorthand_date_unit(u: u8) -> Option<u8> {
    if u == 100 || u == 68 {
        Some(68)
    } else if u == 119 || u == 87 {
        Some(87)
    } else if u == 77 {
        Some(77)
    } else if u == 121 || u == 89 {
        Some(89)
    } else {
        None
    }
}

pub open spec fn shorthand_time_unit(u: u8) -> Option<u8> {
    if u == 104 || u == 72 {
        Some(72)
    } else if u == 109 {
        Some(77)
    } else if u == 115 || u == 83 {
        Some(83)
    } else {
        None
    }
}

/// The normalized form of a duration string: whitespace-trimmed; canonical
/// text passes through; shorthand is rewritten to canonical form; anything
/// else is returned trimmed and unchanged.
pub open spec fn normalize_spec(s: Seq<u8>) -> Seq<u8> {
    let t = trim_seq(s);
    if s.len() == 0 || t.len() == 0 {
        s
    } else if upper_byte(t[0]) == 80 {
        t
    } else {
        let u = t.last();
        let v = trim_end_seq(t.drop_last());
        if is_value_seq(v) && shorthand_date_unit(u).is_some() {
            seq![80u8] + v + seq![shorthand_date_unit(u).unwrap()]
        } else if is_value_seq(v) && shorthand_time_unit(u).is_some() {
            seq![80u8, 84u8] + v + seq![shorthand_time_unit(u).unwrap()]
        } else {
            t
        }
    }
}

/// Millisecond total a duration string denotes.
pub open spec fn duration_ms(s: Seq<u8>) -> int {
    iso_ms_total(normalize_spec(s))
}

pub open spec fn duration_long_frac(s: Seq<u8>) -> bool {
    iso_long_frac(normalize_spec(s))
}

proof fn lemma_dv_bound(s: Seq<u8>, i: int, j: int)
    requires
        i <= j,
        forall|x: int| i <= x < j ==> is_digit(s[x]),
    ensures
        dv(s, i, j) < pow10((j - i) as nat),
    decreases j - i,
{
    if i < j {
        lemma_dv_bound(s, i, j - 1);
    }
}

/// Scanning contributes nothing negative: every component's value is a sum
/// of products and quotients of nonnegative quantities.
proof fn lemma_comp_nonneg(s: Seq<u8>, i: int, time: bool)
    requires
        0 <= i < s.len(),
    ensures
        match comp_at(s, i, time) {
            Some((ms, ni, fd)) => 0 <= ms && i < ni <= s.len() && 0 <= fd,
            None => true,
        },
{
    lemma_run_end(s, i);
    let d1e = run_end(s, i);
    if d1e != i {
        if d1e + 1 < s.len() && s[d1e] == 46 && is_digit(s[d1e + 1]) {
            lemma_run_end(s, d1e + 1);
        }
        match comp_at(s, i, time) {
            Some((ms, ni, fd)) => {
                let fe = if d1e + 1 < s.len() && s[d1e] == 46 && is_digit(s[d1e + 1]) {
                    run_end(s, d1e + 1)
                } else {
                    d1e
                };
                let u = unit_ms(time, s[fe]).unwrap() as int;
                lemma_dv_nonneg(s, i, d1e);
                assert(dv(s, i, d1e) * u >= 0) by (nonlinear_arith)
                    requires
                        dv(s, i, d1e) >= 0,
                        u >= 0,
                ;
                if fd > 0 {
                    lemma_dv_nonneg(s, d1e + 1, fe);
                    assert(dv(s, d1e + 1, fe) * u >= 0) by (nonlinear_arith)
                        requires
                            dv(s, d1e + 1, fe) >= 0,
                            u >= 0,
                    ;
                    lemma_pow10_pos(fd as nat);
                    vstd::arithmetic::div_mod::lemma_div_pos_is_pos(
                        dv(s, d1e + 1, fe) * u,
                        pow10(fd as nat),
                    );
                }
            },
            None => {},
        }
    }
}

proof fn lemma_pow10_pos(k: nat)
    ensures
        pow10(k) >= 1,
    decreases k,
{
    if k > 0 {
        lemma_pow10_pos((k - 1) as nat);
    }
}

proof fn lemma_pow10_le(a: nat, b: nat)
    requires
        a <= b,
    ensures
        pow10(a) <= pow10(b),
    decreases b,
{
    if a < b {
        lemma_pow10_le(a, (b - 1) as nat);
        lemma_pow10_pos((b - 1) as nat);
    }
}

proof fn lemma_scan_nonneg(s: Seq<u8>, i: int, time: bool)
    ensures
        scan_ms(s, i, time) >= 0,
    decreases s.len() - i,
{
    if 0 <= i < s.len() {
        lemma_comp_nonneg(s, i, time);
        match comp_at(s, i, time) {
            Some((ms, ni, fd)) => {
                lemma_scan_nonneg(s, ni, time);
            },
            None => {
                lemma_scan_nonneg(s, i + 1, time);
            },
        }
    }
}

/// Millisecond value of one canonical unit letter, by position.
fn unit_of(time: bool, u: u8) -> (r: Option<u64>)
    ensures
        r == unit_ms(time, u),
{
    if time {
        if u == 72 {
            Some(MS_PER_HOUR)
        } else if u == 77 {
            Some(MS_PER_MINUTE)
        } else if u == 83 {
            Some(MS_PER_SECOND)
        } else {
            None
        }
    } else {
        if u == 89 {
            Some(MS_PER_YEAR)
        } else if u == 77 {
            Some(MS_PER_MONTH)
        } else if u == 87 {
            Some(MS_PER_WEEK)
        } else if u == 68 {
            Some(MS_PER_DAY)
        } else {
            None
        }
    }
}

fn pow10_u64(k: usize) -> (r: u64)
    requires
        k <= 9,
    ensures
        r == pow10(k as nat),
        r >= 1,
{
    proof {
        reveal_with_fuel(pow10, 11);
    }
    if k == 0 {
        1
    } else if k == 1 {
        10
    } else if k == 2 {
        100
    } else if k == 3 {
        1000
    } else if k == 4 {
        10000
    } else if k == 5 {
        100000
    } else if k == 6 {
        1000000
    } else if k == 7 {
        10000000
    } else if k == 8 {
        100000000
    } else {
        1000000000
    }
}

/// Evaluates the components of one part (date or time) of a canonical
/// string. Errors report an unsupported fraction or a total beyond `u64`.
fn scan_part(s: &[u8], time: bool) -> (r: Result<u64, DurationError>)
    ensures
        match r {
            Ok(ms) => ms == scan_ms(s@, 0, time) && !scan_long_frac(s@, 0, time),
            Err(DurationError::FractionTooLong) => scan_long_frac(s@, 0, time),
            Err(DurationError::TooLarge) => scan_ms(s@, 0, time) > u64::MAX,
            Err(_) => false,
        },
{
    let mut i: usize = 0;
    let mut acc: u64 = 0;
    loop
        invariant
            i <= s@.len(),
            acc + scan_ms(s@, i as int, time) == scan_ms(s@, 0, time),
            scan_long_frac(s@, 0, time) == scan_long_frac(s@, i as int, time),
        decreases s@.len() - i,
    {
        if i >= s.len() {
            return Ok(acc);
        }
        let d1e = digit_run(s, i);
        if d1e == i {
            proof {
                assert(comp_at(s@, i as int, time) is None);
            }
            i += 1;
            continue ;
        }
        let fe = if d1e < s.len() && s[d1e] == 46 && d1e + 1 < s.len() && digit_byte(
            s[d1e + 1],
        ) {
            digit_run(s, d1e + 1)
        } else {
            d1e
        };
        let unit_opt = if fe < s.len() {
            unit_of(time, s[fe])
        } else {
            None
        };
        match unit_opt {
            None => {
                proof {
                    assert(comp_at(s@, i as int, time) is None);
                }
                i += 1;
                continue ;
            },
            Some(u) => {
                let fd: usize = if fe > d1e {
                    fe - d1e - 1
                } else {
                    0
                };
                proof {
                    lemma_comp_nonneg(s@, i as int, time);
                    lemma_scan_nonneg(s@, fe + 1, time);
                }
                if fd > 9 {
                    return Err(DurationError::FractionTooLong);
                }
                let ghost comp_ms = comp_at(s@, i as int, time).unwrap().0;
                match parse_digits(s, i, d1e) {
                    None => {
                        proof {
                            let iv = dv(s@, i as int, d1e as int);
                            lemma_dv_nonneg(s@, i as int, d1e as int);
                            assert(iv * u >= iv * 1000) by (nonlinear_arith)
                                requires
                                    iv >= 0,
                                    u >= 1000,
                            ;
                            if fd > 0 {
                                let fval = dv(s@, (d1e + 1) as int, fe as int);
                                lemma_dv_nonneg(s@, (d1e + 1) as int, fe as int);
                                assert(fval * u >= 0) by (nonlinear_arith)
                                    requires
                                        fval >= 0,
                                        u >= 0,
                                ;
                                lemma_pow10_pos(fd as nat);
                                vstd::arithmetic::div_mod::lemma_div_pos_is_pos(
                                    fval * u,
                                    pow10(fd as nat),
                                );
                            }
                            assert(comp_ms > u64::MAX);
                        }
                        return Err(DurationError::TooLarge);
                    },
                    Some(iv) => {
                        let fv: u64 = if fd > 0 {
                            match parse_digits(s, d1e + 1, fe) {
                                Some(v) => v,
                                None => {
                                    proof {
                                        lemma_dv_bound(s@, (d1e + 1) as int, fe as int);
                                        lemma_pow10_le((fd as nat), 9nat);
                                        reveal_with_fuel(pow10, 11);
                                    }
                                    // unreachable: at most nine digits fit well within u64
                                    return Err(DurationError::TooLarge);
                                },
                            }
                        } else {
                            0
                        };
                        proof {
                            if fd > 0 {
                                lemma_dv_bound(s@, (d1e + 1) as int, fe as int);
                                lemma_pow10_le((fd as nat), 9nat);
                                lemma_dv_nonneg(s@, (d1e + 1) as int, fe as int);
                            }
                            reveal_with_fuel(pow10, 11);
                        }
                        let den: u64 = pow10_u64(fd);
                        proof {
                            assert(u <= MS_PER_YEAR);
                            assert(iv as int * u as int <= u64::MAX as int * (
                            MS_PER_YEAR as int)) by (nonlinear_arith)
                                requires
                                    0 <= iv as int <= u64::MAX as int,
                                    0 <= u as int <= MS_PER_YEAR as int,
                            ;
                            assert(0 <= fv as int * u as int <= u64::MAX as int * (
                            MS_PER_YEAR as int)) by (nonlinear_arith)
                                requires
                                    0 <= fv as int <= u64::MAX as int,
                                    0 <= u as int <= MS_PER_YEAR as int,
                            ;
                            vstd::arithmetic::div_mod::lemma_div_nonincreasing(
                                fv as int * u as int,
                                den as int,
                            );
                            vstd::arithmetic::div_mod::lemma_div_pos_is_pos(
                                fv as int * u as int,
                                den as int,
                            );
                        }
                        let c: u128 = iv as u128 * u as u128 + (fv as u128 * u as u128)
                            / den as u128;
                        proof {
                            assert(iv as int * u as int == (iv as u128 * u as u128) as int)
                                by (nonlinear_arith)
                                requires
                                    0 <= iv <= u64::MAX,
                                    0 <= u <= u64::MAX,
                            ;
                            assert(fv as int * u as int == (fv as u128 * u as u128) as int)
                                by (nonlinear_arith)
                                requires
                                    0 <= fv <= u64::MAX,
                                    0 <= u <= u64::MAX,
                            ;
                            if fd > 0 {
                                assert(c as int == comp_ms);
                            } else {
                                assert((fv as int * u as int) / (den as int) == 0int);
                                assert(c as int == comp_ms);
                            }
                        }
                        let newacc: u128 = acc as u128 + c;
                        if newacc > u64::MAX as u128 {
                            proof {
                                assert(scan_ms(s@, 0, time) >= acc + comp_ms);
                            }
                            return Err(DurationError::TooLarge);
                        }
                        acc = newacc as u64;
                        i = fe + 1;
                    },
                }
            },
        }
    }
}

/// Rewrites human shorthand (`30d`, `2w`, `6M`, `1y`, `12h`, `30m`, `45s`)
/// into canonical interval notation; canonical input passes through trimmed;
/// unrecognized input is returned trimmed and otherwise unchanged.
pub fn normalize_duration(s: &[u8]) -> (r: Vec<u8>)
    ensures
        r@ == normalize_spec(s@),
{
    let t = trim(s);
    if s.len() == 0 || t.len() == 0 {
        return subvec(s, 0, s.len());
    }
    if t[0] == 80 || t[0] == 112 {
        return t;
    }
    let u = t[t.len() - 1];
    let head = subvec(t.as_slice(), 0, t.len() - 1);
    proof {
        assert(head@ =~= t@.drop_last());
    }
    let v = trim_end_ws(head.as_slice());
    if is_value(v.as_slice()) {
        let date_u = shorthand_date_unit_of(u);
        let time_u = shorthand_time_unit_of(u);
        if let Some(cu) = date_u {
            let mut r: Vec<u8> = Vec::new();
            r.push(80);
            push_all(&mut r, v.as_slice());
            r.push(cu);
            proof {
                assert(r@ =~= seq![80u8] + v@ + seq![cu]);
            }
            return r;
        }
        if let Some(cu) = time_u {
            let mut r: Vec<u8> = Vec::new();
            r.push(80);
            r.push(84);
            push_all(&mut r, v.as_slice());
            r.push(cu);
            proof {
                assert(r@ =~= seq![80u8, 84u8] + v@ + seq![cu]);
            }
            return r;
        }
    }
    t
}

/// Removes trailing ASCII whitespace only.
fn trim_end_ws(s: &[u8]) -> (r: Vec<u8>)
    ensures
        r@ == trim_end_seq(s@),
{
    let mut b: usize = s.len();
    while b > 0 && ws_byte(s[b - 1])
        invariant
            b <= s@.len(),
            forall|j: int| b <= j < s@.len() ==> is_ws(s@[j]),
        decreases b,
    {
        b -= 1;
    }
    let r = subvec(s, 0, b);
    proof {
        lemma_trim_end_ws_at(s@, b as int);
    }
    r
}

proof fn lemma_trim_end_ws_at(s: Seq<u8>, k: int)
    requires
        0 <= k <= s.len(),
        forall|j: int| k <= j < s.len() ==> is_ws(s[j]),
        k > 0 ==> !is_ws(s[k - 1]),
    ensures
        trim_end_seq(s) == s.subrange(0, k),
    decreases s.len() - k,
{
    if k == s.len() {
        if s.len() > 0 && is_ws(s.last()) {
            lemma_trim_end_ws_at(s.drop_last(), k - 1);
        } else {
            assert(s =~= s.subrange(0, s.len() as int));
        }
    } else {
        lemma_trim_end_ws_at(s.drop_last(), k);
        assert(s.drop_last().subrange(0, k) =~= s.subrange(0, k));
    }
}

fn is_digits(v: &[u8]) -> (r: bool)
    ensures
        r == is_digits_seq(v@),
{
    if v.len() == 0 {
        return false;
    }
    let mut i: usize = 0;
    while i < v.len()
        invariant
            i <= v@.len(),
            forall|j: int| 0 <= j < i ==> is_digit(v@[j]),
        decreases v@.len() - i,
    {
        if !digit_byte(v[i]) {
            return false;
        }
        i += 1;
    }
    true
}

/// The shorthand value grammar: digits, optionally one dot with digits on
/// both sides.
fn is_value(v: &[u8]) -> (r: bool)
    ensures
        r == is_value_seq(v@),
{
    match find_byte(v, 46, 0) {
        None => {
            let r = is_digits(v);
            proof {
                if !r {
                    assert forall|k: int|
                        !(0 < k < v@.len() && v@[k] == 46 && is_digits_seq(v@.subrange(0, k))
                            && is_digits_seq(v@.subrange(k + 1, v@.len() as int))) by {}
                }
            }
            r
        },
        Some(k) => {
            let n = v.len();
            let left = subvec(v, 0, k);
            let right = subvec(v, k + 1, n);
            let r = k > 0 && is_digits(left.as_slice()) && is_digits(right.as_slice());
            proof {
                assert(!is_digits_seq(v@)) by {
                    assert(!is_digit(v@[k as int]));
                }
                if r {
                    assert(is_value_seq(v@)) by {
                        assert(0 < k < v@.len() && v@[k as int] == 46 && is_digits_seq(
                            v@.subrange(0, k as int),
                        ) && is_digits_seq(v@.subrange(k as int + 1, v@.len() as int)));
                    }
                } else {
                    assert forall|j: int|
                        !(0 < j < v@.len() && v@[j] == 46 && is_digits_seq(v@.subrange(0, j))
                            && is_digits_seq(v@.subrange(j + 1, v@.len() as int))) by {
                        if 0 < j < v@.len() && v@[j] == 46 {
                            if j > k {
                                assert(v@.subrange(0, j)[k as int] == 46);
                                assert(!is_digits_seq(v@.subrange(0, j)));
                            }
                        }
                    }
                }
            }
            r
        },
    }
}

fn shorthand_date_unit_of(u: u8) -> (r: Option<u8>)
    ensures
        r == shorthand_date_unit(u),
{
    if u == 100 || u == 68 {
        Some(68)
    } else if u == 119 || u == 87 {
        Some(87)
    } else if u == 77 {
        Some(77)
    } else if u == 121 || u == 89 {
        Some(89)
    } else {
        None
    }
}

fn shorthand_time_unit_of(u: u8) -> (r: Option<u8>)
    ensures
        r == shorthand_time_unit(u),
{
    if u == 104 || u == 72 {
        Some(72)
    } else if u == 109 {
        Some(77)
    } else if u == 115 || u == 83 {
        Some(83)
    } else {
        None
    }
}

/// Evaluates a duration string into milliseconds.
///
/// Returns `Ok` exactly when the trimmed input is nonempty, every fraction
/// has at most nine digits, and the denoted total is positive and fits in a
/// `u64`; each error names the condition that failed.
pub fn parse_duration(s: &[u8]) -> (r: Result<u64, DurationError>)
    ensures
        match r {
            Ok(ms) => trim_seq(s@).len() > 0 && !duration_long_frac(s@) && ms == duration_ms(s@)
                && ms > 0,
            Err(DurationError::EmptyInput) => trim_seq(s@).len() == 0,
            Err(DurationError::FractionTooLong) => trim_seq(s@).len() > 0 && duration_long_frac(
                s@,
            ),
            Err(DurationError::TooLarge) => trim_seq(s@).len() > 0 && duration_ms(s@) > u64::MAX,
            Err(DurationError::InvalidFormat) => trim_seq(s@).len() > 0 && !duration_long_frac(s@)
                && duration_ms(s@) == 0,
        },
{
    let t = trim(s);
    if t.len() == 0 {
        return Err(DurationError::EmptyInput);
    }
    let n = normalize_duration(s);
    let up = to_upper(n.as_slice());
    proof {
        assert(up@.len() == n@.len());
    }
    if up.len() == 0 || up[0] != 80 {
        proof {
            if up@.len() > 0 {
                assert(upper_seq(n@)[0] == upper_byte(n@[0]));
            }
        }
        return Err(DurationError::InvalidFormat);
    }
    let t_pos = match find_byte(up.as_slice(), 84, 1) {
        Some(x) => x,
        None => up.len(),
    };
    proof {
        lemma_idx_from(up@, 84, 1, t_pos as int);
    }
    let dp = subvec(up.as_slice(), 1, t_pos);
    let date_ms = match scan_part(dp.as_slice(), false) {
        Ok(v) => v,
        Err(e) => {
            proof {
                lemma_scan_nonneg(up@.subrange(t_pos as int + 1, up@.len() as int), 0, true);
            }
            return Err(e);
        },
    };
    let time_ms = if t_pos < up.len() {
        let tp = subvec(up.as_slice(), t_pos + 1, up.len());
        match scan_part(tp.as_slice(), true) {
            Ok(v) => v,
            Err(e) => {
                return Err(e);
            },
        }
    } else {
        0
    };
    let total: u128 = date_ms as u128 + time_ms as u128;
    if total > u64::MAX as u128 {
        return Err(DurationError::TooLarge);
    }
    let total64 = total as u64;
    if total64 == 0 {
        return Err(DurationError::InvalidFormat);
    }
    Ok(total64)
}

/// Accepts a duration string, returning it unchanged, exactly when
/// `parse_duration` accepts it.
pub fn validate_duration(value: &[u8]) -> (r: Result<Vec<u8>, DurationError>)
    ensures
        match r {
            Ok(v) => v@ == value@ && parse_duration_ok(value@),
            Err(_) => !parse_duration_ok(value@),
        },
{
    match parse_duration(value) {
        Ok(_) => Ok(subvec(value, 0, value.len())),
        Err(e) => Err(e),
    }
}

/// A duration string that the evaluator accepts.
pub open spec fn parse_duration_ok(s: Seq<u8>) -> bool {
    trim_seq(s).len() > 0 && !duration_long_frac(s) && 0 < duration_ms(s) <= u64::MAX
}

} // verus!
