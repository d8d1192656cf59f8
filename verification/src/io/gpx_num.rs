//! Numeric and timestamp fields of GPX documents, read from bytes
//! into fixed-point integers.

use vstd::prelude::*;

verus! {

/// An ASCII decimal digit byte.
pub open spec fn is_digit_b(b: u8) -> bool {
    48 <= b <= 57
}

/// The value of the digit bytes of `s` in `[from, to)`.
pub open spec fn digits_val_b(s: Seq<u8>, from: int, to: int) -> int
    decreases to - from,
{
    if to <= from {
        0
    } else {
        digits_val_b(s, from, to - 1) * 10 + (s[to - 1] - 48)
    }
}

/// All bytes of `s` in `[from, to)` are digits.
pub open spec fn all_digits_b(s: Seq<u8>, from: int, to: int) -> bool {
    forall|j: int| from <= j < to ==> is_digit_b(#[trigger] s[j])
}

/// Ten to the `k`-th.
pub open spec fn pow10(k: int) -> int
    decreases k,
{
    if k <= 0 {
        1
    } else {
        10 * pow10(k - 1)
    }
}

/// The fractional digits `s[from..to]`, scaled to `k` places: the
/// first `k` digits, padded with zeroes when fewer.
pub open spec fn frac_scaled(s: Seq<u8>, from: int, to: int, k: int) -> int
    decreases k,
{
    if k <= 0 {
        0
    } else {
        (if from < to {
            (s[from] - 48) as int
        } else {
            0
        }) * pow10(k - 1) + frac_scaled(s, from + 1, to, k - 1)
    }
}

/// Structure of a signed decimal in `s[from..to]`: an optional sign,
/// at most twelve integer digits, and an optional dot with at least
/// one fractional digit.
pub open spec fn dec_start(s: Seq<u8>, from: int, to: int) -> int {
    if from < to && (s[from] == 43 || s[from] == 45) {
        from + 1
    } else {
        from
    }
}

/// The index just past the integer digits.
pub open spec fn dec_int_end(s: Seq<u8>, from: int, to: int) -> int
    decreases to - from,
{
    if from >= to || !is_digit_b(s[from]) {
        from
    } else {
        dec_int_end(s, from + 1, to)
    }
}

/// A well-formed signed decimal with a bounded integer part.
pub open spec fn dec_ok(s: Seq<u8>, from: int, to: int) -> bool {
    let a = dec_start(s, from, to);
    let ie = dec_int_end(s, a, to);
    &&& ie > a
    &&& ie - a <= 12
    &&& if ie == to {
        true
    } else {
        &&& s[ie] == 46
        &&& ie + 1 < to
        &&& dec_int_end(s, ie + 1, to) == to
    }
}

/// The value of a well-formed signed decimal, scaled by `k` decimal
/// places, extra fractional digits truncated.
pub open spec fn dec_scaled_val(s: Seq<u8>, from: int, to: int, k: int) -> int {
    let a = dec_start(s, from, to);
    let ie = dec_int_end(s, a, to);
    let mag = digits_val_b(s, a, ie) * pow10(k) + if ie < to {
        frac_scaled(s, ie + 1, to, k)
    } else {
        0
    };
    if from < to && s[from] == 45 {
        -mag
    } else {
        mag
    }
}

/// Digit values are nonnegative and bounded by the digit count.
pub proof fn lemma_digits_val_b_bounds(s: Seq<u8>, from: int, to: int)
    requires
        from <= to,
        all_digits_b(s, from, to),
    ensures
        0 <= digits_val_b(s, from, to) < pow10(to - from),
    decreases to - from,
{
    if from < to {
        lemma_digits_val_b_bounds(s, from, to - 1);
        assert(is_digit_b(s[to - 1]));
        assert(pow10(to - from) == 10 * pow10(to - from - 1));
        assert(digits_val_b(s, from, to - 1) * 10 + 9 < pow10(to - from)) by (nonlinear_arith)
            requires
                digits_val_b(s, from, to - 1) < pow10(to - from - 1),
                digits_val_b(s, from, to - 1) >= 0,
                pow10(to - from) == 10 * pow10(to - from - 1),
        ;
    }
}

/// Scaled fractions are nonnegative and below the scale.
pub proof fn lemma_frac_scaled_bounds(s: Seq<u8>, from: int, to: int, k: int)
    requires
        all_digits_b(s, from, to),
    ensures
        0 <= frac_scaled(s, from, to, k) < pow10(k),
    decreases k,
{
    if k > 0 {
        lemma_frac_scaled_bounds(s, from + 1, to, k - 1);
        let d: int = if from < to {
            (s[from] - 48) as int
        } else {
            0
        };
        assert(0 <= d <= 9);
        assert(d * pow10(k - 1) + pow10(k - 1) <= 10 * pow10(k - 1)) by (nonlinear_arith)
            requires
                0 <= d <= 9,
                pow10(k - 1) > 0,
        ;
        assert(d * pow10(k - 1) >= 0) by (nonlinear_arith)
            requires
                0 <= d,
                pow10(k - 1) > 0,
        ;
        assert(pow10(k) == 10 * pow10(k - 1));
    } else {
        assert(pow10(k) == 1);
    }
}

/// pow10 is positive.
pub proof fn lemma_pow10_pos(k: int)
    ensures
        pow10(k) >= 1,
    decreases k,
{
    if k > 0 {
        lemma_pow10_pos(k - 1);
    }
}

/// Each added place shifts the scaled fraction by one digit.
pub proof fn lemma_frac_scaled_step(s: Seq<u8>, from: int, to: int, k: int)
    requires
        k >= 1,
    ensures
        frac_scaled(s, from, to, k) == 10 * frac_scaled(s, from, to, k - 1) + (if from + k - 1
            < to {
            (s[from + k - 1] - 48) as int
        } else {
            0
        }),
    decreases k,
{
    let d0: int = if from < to {
        (s[from] - 48) as int
    } else {
        0
    };
    let dlast: int = if from + k - 1 < to {
        (s[from + k - 1] - 48) as int
    } else {
        0
    };
    if k == 1 {
        assert(frac_scaled(s, from, to, 1) == d0 * pow10(0) + frac_scaled(s, from + 1, to, 0));
        assert(pow10(0) == 1);
        assert(d0 * 1 == d0) by (nonlinear_arith);
    } else {
        lemma_frac_scaled_step(s, from + 1, to, k - 1);
        assert(frac_scaled(s, from + 1, to, k - 1) == 10 * frac_scaled(s, from + 1, to, k - 2)
            + dlast);
        assert(frac_scaled(s, from, to, k) == d0 * pow10(k - 1) + frac_scaled(s, from + 1, to, k
            - 1));
        assert(frac_scaled(s, from, to, k - 1) == d0 * pow10(k - 2) + frac_scaled(
            s,
            from + 1,
            to,
            k - 2,
        ));
        assert(pow10(k - 1) == 10 * pow10(k - 2));
        assert(d0 * (10 * pow10(k - 2)) == 10 * (d0 * pow10(k - 2))) by (nonlinear_arith);
    }
}

/// What the digit scan stops at: digits before, a non-digit or the
/// end at the stop.
pub proof fn lemma_dec_int_end_char(s: Seq<u8>, from: int, to: int)
    requires
        from <= to,
    ensures
        from <= dec_int_end(s, from, to) <= to,
        all_digits_b(s, from, dec_int_end(s, from, to)),
        dec_int_end(s, from, to) == to || !is_digit_b(s[dec_int_end(s, from, to)]),
    decreases to - from,
{
    if from < to && is_digit_b(s[from]) {
        lemma_dec_int_end_char(s, from + 1, to);
    }
}

/// Parses a signed scaled decimal from `bytes[from..to]`: an
/// optional sign, at most twelve integer digits, an optional dot
/// with fractional digits; the value is scaled by `k` decimal
/// places, extra fractional digits truncated.
#[verifier::loop_isolation(false)]
pub fn parse_dec_scaled(bytes: &Vec<u8>, from: usize, to: usize, k: usize) -> (r: Option<i64>)
    requires
        from <= to <= bytes@.len(),
        k <= 6,
    ensures
        match r {
            Option::Some(v) => dec_ok(bytes@, from as int, to as int) && v as int
                == dec_scaled_val(bytes@, from as int, to as int, k as int),
            Option::None => !dec_ok(bytes@, from as int, to as int),
        },
{
    let ghost gs = bytes@;
    let mut p: usize = from;
    let mut neg = false;
    if p < to && (bytes[p] == 43 || bytes[p] == 45) {
        neg = bytes[p] == 45;
        p += 1;
    }
    let ghost a = p as int;
    proof {
        assert(a == dec_start(gs, from as int, to as int));
    }
    // Integer digits.
    let mut iv: i64 = 0;
    let mut cur: usize = p;
    while cur < to && bytes[cur] >= 48 && bytes[cur] <= 57
        invariant
            from <= p <= cur <= to,
            to <= bytes@.len(),
            gs == bytes@,
            a == p as int,
            dec_int_end(gs, a, to as int) == dec_int_end(gs, cur as int, to as int),
            all_digits_b(gs, a, cur as int),
            iv as int == digits_val_b(gs, a, cur as int),
            cur - p <= 12,
            0 <= iv,
            (iv as int) < pow10(cur - p),
        decreases to - cur,
    {
        if cur - p >= 12 {
            proof {
                assert(is_digit_b(gs[cur as int]));
                assert(dec_int_end(gs, cur as int, to as int) == dec_int_end(
                    gs,
                    cur as int + 1,
                    to as int,
                ));
                lemma_dec_int_end_char(gs, cur as int + 1, to as int);
                assert(dec_int_end(gs, a, to as int) >= cur + 1);
            }
            return Option::None;
        }
        let d: i64 = (bytes[cur] - 48) as i64;
        proof {
            lemma_digits_val_b_bounds(gs, a, cur as int);
            assert(pow10(cur - p) <= pow10(12)) by {
                lemma_pow10_mono(cur - p, 12);
            }
            assert(pow10(12) == 1_000_000_000_000) by {
                reveal_with_fuel(pow10, 13);
            }
        }
        iv = iv * 10 + d;
        cur += 1;
        proof {
            assert(pow10(cur - p) == 10 * pow10(cur - p - 1));
            assert((iv as int) < pow10(cur - p)) by (nonlinear_arith)
                requires
                    iv as int == (digits_val_b(gs, a, cur as int - 1)) * 10 + (gs[cur as int - 1]
                        - 48),
                    digits_val_b(gs, a, cur as int - 1) < pow10(cur - p - 1),
                    gs[cur as int - 1] - 48 <= 9,
                    pow10(cur - p) == 10 * pow10(cur - p - 1),
            ;
        }
    }
    let ie = cur;
    proof {
        assert(dec_int_end(gs, a, to as int) == ie);
        lemma_pow10_mono(ie - p, 12);
        assert(pow10(12) == 1_000_000_000_000) by {
            reveal_with_fuel(pow10, 13);
        }
    }
    if ie == p {
        return Option::None;
    }
    // Scale for the integer part.
    let mut sc: i64 = 1;
    let mut j: usize = 0;
    while j < k
        invariant
            j <= k,
            k <= 6,
            sc as int == pow10(j as int),
            1 <= sc <= 1_000_000,
        decreases k - j,
    {
        proof {
            assert(pow10(j as int + 1) == 10 * pow10(j as int));
            lemma_pow10_mono(j as int + 1, 6);
            assert(pow10(6) == 1_000_000) by {
                reveal_with_fuel(pow10, 7);
            }
        }
        sc = sc * 10;
        j += 1;
    }
    let mut frac: i64 = 0;
    if ie < to {
        if bytes[ie] != 46 {
            return Option::None;
        }
        if ie + 1 == to {
            return Option::None;
        }
        // All remaining bytes must be digits.
        let mut q: usize = ie + 1;
        while q < to && bytes[q] >= 48 && bytes[q] <= 57
            invariant
                ie + 1 <= q <= to,
                to <= bytes@.len(),
                gs == bytes@,
                dec_int_end(gs, ie as int + 1, to as int) == dec_int_end(gs, q as int, to as int),
            decreases to - q,
        {
            q += 1;
        }
        proof {
            assert(dec_int_end(gs, ie as int + 1, to as int) == q);
        }
        if q < to {
            return Option::None;
        }
        proof {
            lemma_dec_int_end_char(gs, ie as int + 1, to as int);
        }
        // First `k` fractional digits, padded with zeroes.
        let mut fj: usize = 0;
        while fj < k
            invariant
                fj <= k,
                k <= 6,
                ie + 1 <= to <= bytes@.len(),
                gs == bytes@,
                all_digits_b(gs, ie as int + 1, to as int),
                frac as int == frac_scaled(gs, ie as int + 1, to as int, fj as int),
                0 <= frac as int && (frac as int) < pow10(fj as int),
            decreases k - fj,
        {
            let rem = to - ie - 1;
            let d: i64 = if fj < rem {
                proof {
                    assert(is_digit_b(gs[ie as int + 1 + fj as int]));
                }
                (bytes[ie + 1 + fj] - 48) as i64
            } else {
                0
            };
            proof {
                lemma_frac_scaled_step(gs, ie as int + 1, to as int, fj as int + 1);
                assert(pow10(fj as int + 1) == 10 * pow10(fj as int));
                if ie + 1 + fj < to {
                    assert(is_digit_b(gs[ie as int + 1 + fj as int]));
                }
                assert(frac as int * 10 + d < pow10(fj as int + 1)) by (nonlinear_arith)
                    requires
                        (frac as int) < pow10(fj as int),
                        0 <= frac as int,
                        0 <= d <= 9,
                        pow10(fj as int + 1) == 10 * pow10(fj as int),
                ;
                assert(pow10(fj as int + 1) <= pow10(6)) by {
                    lemma_pow10_mono(fj as int + 1, 6);
                }
                assert(pow10(6) == 1_000_000) by {
                    reveal_with_fuel(pow10, 7);
                }
            }
            frac = frac * 10 + d;
            fj += 1;
        }
    }
    proof {
        assert(0 <= iv as int * sc as int <= 1_000_000_000_000_000_000) by (nonlinear_arith)
            requires
                0 <= iv as int <= 1_000_000_000_000,
                1 <= sc as int <= 1_000_000,
        ;
    }
    let mag: i64 = iv * sc + frac;
    let v: i64 = if neg {
        -mag
    } else {
        mag
    };
    Option::Some(v)
}

/// pow10 grows with the exponent.
pub proof fn lemma_pow10_mono(a: int, b: int)
    requires
        a <= b,
    ensures
        pow10(a) <= pow10(b),
    decreases b - a,
{
    if a < b {
        lemma_pow10_mono(a, b - 1);
        lemma_pow10_pos(b - 1);
    }
}

/// Two digit bytes read as a number.
pub open spec fn two_digits(s: Seq<u8>, i: int) -> int {
    (s[i] - 48) * 10 + (s[i + 1] - 48)
}

/// A fixed-layout time field `s[f..t]`: the clock digits of an RFC
/// 3339 timestamp at their fixed offsets, with an optional dotted
/// fraction that must run in digits up to a `Z`.
pub open spec fn fast_time_ok(s: Seq<u8>, f: int, t: int) -> bool {
    &&& t - f >= 19
    &&& is_digit_b(s[f + 11]) && is_digit_b(s[f + 12])
    &&& is_digit_b(s[f + 14]) && is_digit_b(s[f + 15])
    &&& is_digit_b(s[f + 17]) && is_digit_b(s[f + 18])
    &&& if t - f > 19 && s[f + 19] == 46 {
        let z = dec_int_end(s, f + 20, t);
        z < t && s[z] == 90
    } else {
        true
    }
}

/// The milliseconds since midnight of a fixed-layout time field,
/// fractional digits beyond milliseconds truncated.
pub open spec fn fast_time_ms(s: Seq<u8>, f: int, t: int) -> int {
    let base = two_digits(s, f + 11) * 3600000 + two_digits(s, f + 14) * 60000 + two_digits(
        s,
        f + 17,
    ) * 1000;
    if t - f > 19 && s[f + 19] == 46 {
        base + frac_scaled(s, f + 20, dec_int_end(s, f + 20, t), 3)
    } else {
        base
    }
}

/// Reads the fixed-layout clock of a time field; fails exactly when
/// the field does not carry one.
#[verifier::loop_isolation(false)]
pub fn parse_fast_time(bytes: &Vec<u8>, f: usize, t: usize) -> (r: Option<i64>)
    requires
        f <= t <= bytes@.len(),
    ensures
        match r {
            Option::Some(v) => fast_time_ok(bytes@, f as int, t as int) && v as int
                == fast_time_ms(bytes@, f as int, t as int) && 0 <= v <= 400_000_000,
            Option::None => !fast_time_ok(bytes@, f as int, t as int),
        },
{
    let ghost gs = bytes@;
    if t - f < 19 {
        return Option::None;
    }
    let hh = match read_two_digits(bytes, f + 11) {
        Option::Some(v) => v,
        Option::None => {
            return Option::None;
        },
    };
    let mi = match read_two_digits(bytes, f + 14) {
        Option::Some(v) => v,
        Option::None => {
            return Option::None;
        },
    };
    let ss = match read_two_digits(bytes, f + 17) {
        Option::Some(v) => v,
        Option::None => {
            return Option::None;
        },
    };
    let base: i64 = hh * 3600000 + mi * 60000 + ss * 1000;
    if t - f > 19 && bytes[f + 19] == 46 {
        // Fractional digits, then the zone letter.
        let mut q: usize = f + 20;
        while q < t && bytes[q] >= 48 && bytes[q] <= 57
            invariant
                f + 20 <= q <= t,
                dec_int_end(gs, f as int + 20, t as int) == dec_int_end(gs, q as int, t as int),
            decreases t - q,
        {
            q += 1;
        }
        proof {
            assert(dec_int_end(gs, f as int + 20, t as int) == q);
            lemma_dec_int_end_char(gs, f as int + 20, t as int);
        }
        if q == t || bytes[q] != 90 {
            return Option::None;
        }
        let mut frac: i64 = 0;
        let mut fj: usize = 0;
        while fj < 3
            invariant
                fj <= 3,
                frac as int == frac_scaled(gs, f as int + 20, q as int, fj as int),
                0 <= frac as int && (frac as int) < pow10(fj as int),
            decreases 3 - fj,
        {
            let rem = q - f - 20;
            let d: i64 = if fj < rem {
                proof {
                    assert(is_digit_b(gs[f as int + 20 + fj as int]));
                }
                (bytes[f + 20 + fj] - 48) as i64
            } else {
                0
            };
            proof {
                lemma_frac_scaled_step(gs, f as int + 20, q as int, fj as int + 1);
                assert(pow10(fj as int + 1) == 10 * pow10(fj as int));
                assert(frac as int * 10 + d < pow10(fj as int + 1)) by (nonlinear_arith)
                    requires
                        (frac as int) < pow10(fj as int),
                        0 <= frac as int,
                        0 <= d <= 9,
                        pow10(fj as int + 1) == 10 * pow10(fj as int),
                ;
                assert(pow10(fj as int + 1) <= pow10(3)) by {
                    lemma_pow10_mono(fj as int + 1, 3);
                }
                assert(pow10(3) == 1000) by {
                    reveal_with_fuel(pow10, 4);
                }
            }
            frac = frac * 10 + d;
            fj += 1;
        }
        proof {
            assert(pow10(3) == 1000) by {
                reveal_with_fuel(pow10, 4);
            }
        }
        Option::Some(base + frac)
    } else {
        Option::Some(base)
    }
}

/// Reads two digit bytes at `i`; fails when either is not a digit.
fn read_two_digits(bytes: &Vec<u8>, i: usize) -> (r: Option<i64>)
    requires
        i + 2 <= bytes@.len(),
    ensures
        match r {
            Option::Some(v) => {
                &&& is_digit_b(bytes@[i as int]) && is_digit_b(bytes@[i as int + 1])
                &&& v as int == two_digits(bytes@, i as int)
                &&& 0 <= v <= 99
            },
            Option::None => !(is_digit_b(bytes@[i as int]) && is_digit_b(bytes@[i as int + 1])),
        },
{
    let n = bytes.len();
    proof {
        assert(i + 2 <= n);
    }
    let a = bytes[i];
    let b = bytes[i + 1];
    if a < 48 || a > 57 || b < 48 || b > 57 {
        return Option::None;
    }
    Option::Some(((a - 48) as i64) * 10 + (b - 48) as i64)
}

/// Whether a year is a leap year.
pub open spec fn is_leap(y: int) -> bool {
    y % 4 == 0 && (y % 100 != 0 || y % 400 == 0)
}

/// The number of days of a month.
pub open spec fn days_in_month(y: int, m: int) -> int {
    if m == 2 {
        if is_leap(y) {
            29
        } else {
            28
        }
    } else if m == 4 || m == 6 || m == 9 || m == 11 {
        30
    } else {
        31
    }
}

/// Days from the civil epoch (1970-01-01) to a calendar date.
pub open spec fn days_from_civil(y: int, m: int, d: int) -> int {
    let yp = if m <= 2 {
        y - 1
    } else {
        y
    };
    let era = if yp >= 0 {
        yp / 400
    } else {
        (yp - 399) / 400
    };
    let yoe = yp - era * 400;
    let mp = (m + 9) % 12;
    let doy = (153 * mp + 2) / 5 + d - 1;
    let doe = yoe * 365 + yoe / 4 - yoe / 100 + doy;
    era * 146097 + doe - 719468
}

/// A full RFC 3339 timestamp in `s[f..t]`: date, `T`, clock, an
/// optional dotted fraction, and a zone, with calendar-valid fields.
pub open spec fn rfc3339_ok(s: Seq<u8>, f: int, t: int) -> bool {
    let y = digits_val_b(s, f, f + 4);
    let mo = two_digits(s, f + 5);
    let d = two_digits(s, f + 8);
    let hh = two_digits(s, f + 11);
    let mi = two_digits(s, f + 14);
    let ss = two_digits(s, f + 17);
    let p = if t - f > 19 && s[f + 19] == 46 {
        dec_int_end(s, f + 20, t)
    } else {
        f + 19
    };
    &&& t - f >= 20
    &&& all_digits_b(s, f, f + 4)
    &&& s[f + 4] == 45 && s[f + 7] == 45
    &&& is_digit_b(s[f + 5]) && is_digit_b(s[f + 6])
    &&& is_digit_b(s[f + 8]) && is_digit_b(s[f + 9])
    &&& (s[f + 10] == 84 || s[f + 10] == 116)
    &&& is_digit_b(s[f + 11]) && is_digit_b(s[f + 12])
    &&& s[f + 13] == 58 && s[f + 16] == 58
    &&& is_digit_b(s[f + 14]) && is_digit_b(s[f + 15])
    &&& is_digit_b(s[f + 17]) && is_digit_b(s[f + 18])
    &&& (t - f > 19 && s[f + 19] == 46 ==> p > f + 20)
    &&& 1 <= mo <= 12
    &&& 1 <= d <= days_in_month(y, mo)
    &&& hh <= 23 && mi <= 59 && ss <= 59
    &&& p < t
    &&& if s[p] == 90 || s[p] == 122 {
        p + 1 == t
    } else {
        &&& (s[p] == 43 || s[p] == 45)
        &&& p + 6 == t
        &&& is_digit_b(s[p + 1]) && is_digit_b(s[p + 2])
        &&& s[p + 3] == 58
        &&& is_digit_b(s[p + 4]) && is_digit_b(s[p + 5])
        &&& two_digits(s, p + 1) <= 23
        &&& two_digits(s, p + 4) <= 59
    }
}

/// The milliseconds since the Unix epoch of a full RFC 3339
/// timestamp, fractional digits beyond milliseconds truncated.
pub open spec fn rfc3339_ms(s: Seq<u8>, f: int, t: int) -> int {
    let y = digits_val_b(s, f, f + 4);
    let mo = two_digits(s, f + 5);
    let d = two_digits(s, f + 8);
    let hh = two_digits(s, f + 11);
    let mi = two_digits(s, f + 14);
    let ss = two_digits(s, f + 17);
    let p = if t - f > 19 && s[f + 19] == 46 {
        dec_int_end(s, f + 20, t)
    } else {
        f + 19
    };
    let frac = if t - f > 19 && s[f + 19] == 46 {
        frac_scaled(s, f + 20, p, 3)
    } else {
        0
    };
    let local = days_from_civil(y, mo, d) * 86400000 + hh * 3600000 + mi * 60000 + ss * 1000
        + frac;
    if s[p] == 90 || s[p] == 122 {
        local
    } else {
        let off = (two_digits(s, p + 1) * 60 + two_digits(s, p + 4)) * 60000;
        if s[p] == 45 {
            local + off
        } else {
            local - off
        }
    }
}

/// Reads a full RFC 3339 timestamp into milliseconds since the Unix
/// epoch; fails exactly when `bytes[f..t]` is not a calendar-valid
/// RFC 3339 timestamp.
#[verifier::loop_isolation(false)]
#[verifier::rlimit(100)]
#[verifier::spinoff_prover]
pub fn parse_rfc3339(bytes: &Vec<u8>, f: usize, t: usize) -> (r: Option<i64>)
    requires
        f <= t <= bytes@.len(),
    ensures
        match r {
            Option::Some(v) => rfc3339_ok(bytes@, f as int, t as int) && v as int == rfc3339_ms(
                bytes@,
                f as int,
                t as int,
            ),
            Option::None => !rfc3339_ok(bytes@, f as int, t as int),
        },
{
    let ghost gs = bytes@;
    if t - f < 20 {
        return Option::None;
    }
    // Year digits.
    let mut y: i64 = 0;
    let mut j: usize = 0;
    while j < 4
        invariant
            j <= 4,
            all_digits_b(gs, f as int, f as int + j),
            y as int == digits_val_b(gs, f as int, f as int + j),
            0 <= y <= 9999,
        decreases 4 - j,
    {
        let b = bytes[f + j];
        if b < 48 || b > 57 {
            proof {
                assert(!is_digit_b(gs[f as int + j as int]));
            }
            return Option::None;
        }
        proof {
            assert(is_digit_b(gs[f as int + j as int]));
            lemma_digits_val_b_bounds(gs, f as int, f as int + j);
            assert(pow10(3) == 1000) by {
                reveal_with_fuel(pow10, 4);
            }
            lemma_pow10_mono(j as int, 3);
        }
        y = y * 10 + (b - 48) as i64;
        j += 1;
    }
    if bytes[f + 4] != 45 || bytes[f + 7] != 45 {
        return Option::None;
    }
    let mo = match read_two_digits(bytes, f + 5) {
        Option::Some(v) => v,
        Option::None => {
            return Option::None;
        },
    };
    let d = match read_two_digits(bytes, f + 8) {
        Option::Some(v) => v,
        Option::None => {
            return Option::None;
        },
    };
    let tc = bytes[f + 10];
    if tc != 84 && tc != 116 {
        return Option::None;
    }
    let hh = match read_two_digits(bytes, f + 11) {
        Option::Some(v) => v,
        Option::None => {
            return Option::None;
        },
    };
    if bytes[f + 13] != 58 || bytes[f + 16] != 58 {
        return Option::None;
    }
    let mi = match read_two_digits(bytes, f + 14) {
        Option::Some(v) => v,
        Option::None => {
            return Option::None;
        },
    };
    let ss = match read_two_digits(bytes, f + 17) {
        Option::Some(v) => v,
        Option::None => {
            return Option::None;
        },
    };
    // Optional fraction.
    let mut p: usize = f + 19;
    let mut frac: i64 = 0;
    let dotted = t - f > 19 && bytes[f + 19] == 46;
    if dotted {
        let mut q: usize = f + 20;
        while q < t && bytes[q] >= 48 && bytes[q] <= 57
            invariant
                f + 20 <= q <= t,
                dec_int_end(gs, f as int + 20, t as int) == dec_int_end(gs, q as int, t as int),
            decreases t - q,
        {
            q += 1;
        }
        proof {
            assert(dec_int_end(gs, f as int + 20, t as int) == q);
            lemma_dec_int_end_char(gs, f as int + 20, t as int);
        }
        if q == f + 20 {
            return Option::None;
        }
        let mut fj: usize = 0;
        while fj < 3
            invariant
                fj <= 3,
                f + 20 <= q <= t,
                dec_int_end(gs, f as int + 20, t as int) == q,
                all_digits_b(gs, f as int + 20, q as int),
                frac as int == frac_scaled(gs, f as int + 20, q as int, fj as int),
                0 <= frac as int && (frac as int) < pow10(fj as int),
            decreases 3 - fj,
        {
            let rem = q - f - 20;
            let dg: i64 = if fj < rem {
                proof {
                    assert(is_digit_b(gs[f as int + 20 + fj as int]));
                }
                (bytes[f + 20 + fj] - 48) as i64
            } else {
                0
            };
            proof {
                lemma_frac_scaled_step(gs, f as int + 20, q as int, fj as int + 1);
                assert(pow10(fj as int + 1) == 10 * pow10(fj as int));
                assert(frac as int * 10 + dg < pow10(fj as int + 1)) by (nonlinear_arith)
                    requires
                        (frac as int) < pow10(fj as int),
                        0 <= frac as int,
                        0 <= dg <= 9,
                        pow10(fj as int + 1) == 10 * pow10(fj as int),
                ;
                assert(pow10(fj as int + 1) <= pow10(3)) by {
                    lemma_pow10_mono(fj as int + 1, 3);
                }
                assert(pow10(3) == 1000) by {
                    reveal_with_fuel(pow10, 4);
                }
            }
            frac = frac * 10 + dg;
            fj += 1;
        }
        p = q;
    }
    proof {
        assert(pow10(3) == 1000) by {
            reveal_with_fuel(pow10, 4);
        }
    }
    // Calendar validity.
    if mo < 1 || mo > 12 {
        return Option::None;
    }
    let leap = (y % 4 == 0) && (y % 100 != 0 || y % 400 == 0);
    proof {
        assert(leap == is_leap(y as int));
    }
    let dim: i64 = if mo == 2 {
        if leap {
            29
        } else {
            28
        }
    } else if mo == 4 || mo == 6 || mo == 9 || mo == 11 {
        30
    } else {
        31
    };
    if d < 1 || d > dim {
        return Option::None;
    }
    if hh > 23 || mi > 59 || ss > 59 {
        return Option::None;
    }
    // Zone.
    if p >= t {
        return Option::None;
    }
    let zb = bytes[p];
    let mut offset_ms: i64 = 0;
    if zb == 90 || zb == 122 {
        if p + 1 != t {
            return Option::None;
        }
    } else if zb == 43 || zb == 45 {
        if t - p != 6 {
            return Option::None;
        }
        let zh = match read_two_digits(bytes, p + 1) {
            Option::Some(v) => v,
            Option::None => {
                return Option::None;
            },
        };
        if bytes[p + 3] != 58 {
            return Option::None;
        }
        let zm = match read_two_digits(bytes, p + 4) {
            Option::Some(v) => v,
            Option::None => {
                return Option::None;
            },
        };
        if zh > 23 || zm > 59 {
            return Option::None;
        }
        offset_ms = (zh * 60 + zm) * 60000;
        if zb == 43 {
            offset_ms = -offset_ms;
        }
    } else {
        return Option::None;
    }
    Option::Some(civil_to_ms(y, mo, d, hh, mi, ss, frac) + offset_ms)
}

/// Milliseconds since the Unix epoch of a local calendar moment.
fn civil_to_ms(y: i64, mo: i64, d: i64, hh: i64, mi: i64, ss: i64, frac: i64) -> (r: i64)
    requires
        0 <= y <= 9999,
        1 <= mo <= 12,
        1 <= d <= 31,
        0 <= hh <= 23,
        0 <= mi <= 59,
        0 <= ss <= 59,
        0 <= frac <= 999,
    ensures
        r as int == days_from_civil(y as int, mo as int, d as int) * 86400000 + hh * 3600000 + mi
            * 60000 + ss * 1000 + frac,
{
    let yp: i64 = if mo <= 2 {
        y - 1
    } else {
        y
    };
    let era: i64 = if yp >= 0 {
        yp / 400
    } else {
        -1
    };
    proof {
        if yp < 0 {
            assert(yp == -1);
            assert(((-1 - 399) as int) / 400 == -1);
        }
    }
    let yoe: i64 = yp - era * 400;
    proof {
        assert(0 <= yoe < 400) by (nonlinear_arith)
            requires
                era as int == (if yp >= 0 {
                    (yp as int) / 400
                } else {
                    -1int
                }),
                yoe == yp - era * 400,
                -1 <= yp <= 9999,
        ;
    }
    let mp: i64 = (mo + 9) % 12;
    let doy: i64 = (153 * mp + 2) / 5 + d - 1;
    let doe: i64 = yoe * 365 + yoe / 4 - yoe / 100 + doy;
    let days: i64 = era * 146097 + doe - 719468;
    days * 86400000 + hh * 3600000 + mi * 60000 + ss * 1000 + frac
}

/// A fixed-layout clock reading is bounded.
pub proof fn lemma_fast_time_ms_bounds(s: Seq<u8>, f: int, t: int)
    requires
        fast_time_ok(s, f, t),
    ensures
        0 <= fast_time_ms(s, f, t) <= 400_000_000,
{
    assert(is_digit_b(s[f + 11]) && is_digit_b(s[f + 12]));
    assert(is_digit_b(s[f + 14]) && is_digit_b(s[f + 15]));
    assert(is_digit_b(s[f + 17]) && is_digit_b(s[f + 18]));
    assert(0 <= two_digits(s, f + 11) <= 99);
    assert(0 <= two_digits(s, f + 14) <= 99);
    assert(0 <= two_digits(s, f + 17) <= 99);
    if t - f > 19 && s[f + 19] == 46 {
        let z = dec_int_end(s, f + 20, t);
        lemma_dec_int_end_char(s, f + 20, t);
        lemma_frac_scaled_bounds(s, f + 20, z, 3);
        assert(pow10(3) == 1000) by {
            reveal_with_fuel(pow10, 4);
        }
    }
}

} // verus!

