//! Verified text scanning shared by the track services: ASCII
//! trimming, decimal numerals, and case-insensitive comparison.

use vstd::prelude::*;
use vstd::string::StrSliceExecFns;

verus! {

/// ASCII whitespace, as the trimming of field values removes it.
pub open spec fn is_space(c: char) -> bool {
    c == ' ' || c == '\t' || c == '\n' || c == '\r' || c == '\u{c}'
}

/// First index at or after `i` holding a non-space character, or the
/// length.
pub open spec fn trim_start_idx(s: Seq<char>, i: int) -> int
    decreases s.len() - i,
{
    if i < 0 || i >= s.len() {
        s.len() as int
    } else if is_space(s[i]) {
        trim_start_idx(s, i + 1)
    } else {
        i
    }
}

/// Last bound before or at `i` such that the character just before it
/// is not a space, or zero.
pub open spec fn trim_end_idx(s: Seq<char>, i: int) -> int
    decreases i,
{
    if i <= 0 {
        0
    } else if is_space(s[i - 1]) {
        trim_end_idx(s, i - 1)
    } else {
        i
    }
}

/// The sequence with leading and trailing ASCII whitespace removed.
pub open spec fn trimmed(s: Seq<char>) -> Seq<char> {
    let a = trim_start_idx(s, 0);
    if a == s.len() {
        Seq::empty()
    } else {
        s.subrange(a, trim_end_idx(s, s.len() as int))
    }
}

/// An ASCII decimal digit.
pub open spec fn is_digit(c: char) -> bool {
    48 <= c as int <= 57
}

/// The digit's value.
pub open spec fn digit_val(c: char) -> int {
    c as int - 48
}

/// The value of the first `i` characters read as a decimal numeral.
pub open spec fn digits_val(s: Seq<char>, i: int) -> int
    decreases i,
{
    if i <= 0 {
        0
    } else {
        digits_val(s, i - 1) * 10 + digit_val(s[i - 1])
    }
}

/// All of the first `i` characters are digits.
pub open spec fn all_digits(s: Seq<char>, i: int) -> bool {
    forall|j: int| 0 <= j < i ==> is_digit(#[trigger] s[j])
}

/// The digits of `s` without an optional leading plus sign.
pub open spec fn numeral_body(s: Seq<char>) -> Seq<char> {
    if s.len() > 0 && s[0] == '+' {
        s.subrange(1, s.len() as int)
    } else {
        s
    }
}

/// A well-formed `u32` decimal numeral: an optional plus sign, then
/// at least one digit, with a value below two to the thirty-second.
pub open spec fn is_u32_numeral(s: Seq<char>) -> bool {
    let t = numeral_body(s);
    t.len() > 0 && all_digits(t, t.len() as int) && digits_val(t, t.len() as int) < 0x1_0000_0000
}

/// The value of a `u32` decimal numeral.
pub open spec fn u32_numeral_val(s: Seq<char>) -> int {
    digits_val(numeral_body(s), numeral_body(s).len() as int)
}

/// A numeral's value is nonnegative.
pub proof fn lemma_digits_val_nonneg(s: Seq<char>, i: int)
    requires
        all_digits(s, i),
        i <= s.len(),
    ensures
        digits_val(s, i) >= 0,
    decreases i,
{
    if i > 0 {
        lemma_digits_val_nonneg(s, i - 1);
        assert(digits_val(s, i - 1) * 10 >= 0) by (nonlinear_arith)
            requires
                digits_val(s, i - 1) >= 0,
        ;
        assert(is_digit(s[i - 1]));
    }
}

/// A numeral's value only grows as digits are appended.
pub proof fn lemma_digits_val_monotone(s: Seq<char>, i: int, j: int)
    requires
        0 <= i <= j,
        all_digits(s, j),
        j <= s.len(),
    ensures
        0 <= digits_val(s, i) <= digits_val(s, j),
    decreases j - i,
{
    if i < j {
        lemma_digits_val_monotone(s, i, j - 1);
        assert(is_digit(s[j - 1]));
        assert(digits_val(s, j) == digits_val(s, j - 1) * 10 + digit_val(s[j - 1]));
        assert(digits_val(s, j - 1) * 10 >= digits_val(s, j - 1)) by (nonlinear_arith)
            requires
                digits_val(s, j - 1) >= 0,
        ;
    } else {
        lemma_digits_val_nonneg(s, i);
    }
}

/// The code point a character compares as under ASCII case folding.
pub open spec fn lower_code(c: char) -> int {
    if 65 <= c as int <= 90 {
        c as int + 32
    } else {
        c as int
    }
}

/// Character sequences equal up to ASCII case.
pub open spec fn ascii_eq_ignore_case(a: Seq<char>, b: Seq<char>) -> bool {
    a.len() == b.len() && forall|i: int|
        0 <= i < a.len() ==> lower_code(#[trigger] a[i]) == lower_code(b[i])
}

/// Compares two strings, folding ASCII letters to lower case.
pub fn str_eq_ignore_ascii_case(a: &str, b: &str) -> (r: bool)
    ensures
        r == ascii_eq_ignore_case(a@, b@),
{
    let na = a.unicode_len();
    let nb = b.unicode_len();
    if na != nb {
        return false;
    }
    let mut i: usize = 0;
    while i < na
        invariant
            na == a@.len(),
            nb == b@.len(),
            na == nb,
            i <= na,
            forall|j: int| 0 <= j < i ==> lower_code(#[trigger] a@[j]) == lower_code(b@[j]),
        decreases na - i,
    {
        let ca = a.get_char(i) as u32;
        let cb = b.get_char(i) as u32;
        let la: u32 = if 65 <= ca && ca <= 90 {
            ca + 32
        } else {
            ca
        };
        let lb: u32 = if 65 <= cb && cb <= 90 {
            cb + 32
        } else {
            cb
        };
        if la != lb {
            return false;
        }
        i += 1;
    }
    true
}

/// Whether the character at `i` is ASCII whitespace.
fn char_at_is_space(s: &str, i: usize) -> (r: bool)
    requires
        i < s@.len(),
    ensures
        r == is_space(s@[i as int]),
{
    let c = s.get_char(i) as u32;
    c == 32 || c == 9 || c == 10 || c == 13 || c == 12
}

/// The substring of `s` with leading and trailing ASCII whitespace
/// removed.
pub fn trim_str<'a>(s: &'a str) -> (r: &'a str)
    ensures
        r@ == trimmed(s@),
{
    let n = s.unicode_len();
    let mut a: usize = 0;
    while a < n && char_at_is_space(s, a)
        invariant
            n == s@.len(),
            a <= n,
            trim_start_idx(s@, 0) == trim_start_idx(s@, a as int),
            forall|j: int| 0 <= j < a ==> is_space(#[trigger] s@[j]),
        decreases n - a,
    {
        a += 1;
    }
    if a == n {
        proof {
            assert(trim_start_idx(s@, 0) == n);
            assert(trimmed(s@) =~= Seq::<char>::empty());
        }
        return s.substring_char(0, 0);
    }
    proof {
        assert(!is_space(s@[a as int]));
        assert(trim_start_idx(s@, a as int) == a as int);
    }
    let mut b: usize = n;
    while b > a && char_at_is_space(s, b - 1)
        invariant
            n == s@.len(),
            a < n,
            a <= b <= n,
            !is_space(s@[a as int]),
            trim_start_idx(s@, 0) == a as int,
            trim_end_idx(s@, n as int) == trim_end_idx(s@, b as int),
            forall|j: int| b <= j < n ==> is_space(#[trigger] s@[j]),
        decreases b,
    {
        b -= 1;
    }
    proof {
        assert(b > a);
        assert(!is_space(s@[b as int - 1]));
        assert(trim_end_idx(s@, b as int) == b as int);
    }
    s.substring_char(a, b)
}

/// Parses a `u32` decimal numeral: an optional plus sign, then at
/// least one digit; fails on anything else and on overflow.
pub fn parse_u32_str(s: &str) -> (r: Option<u32>)
    ensures
        match r {
            Option::Some(v) => is_u32_numeral(s@) && v as int == u32_numeral_val(s@),
            Option::None => !is_u32_numeral(s@),
        },
{
    let n = s.unicode_len();
    let mut i: usize = 0;
    if n > 0 && s.get_char(0) as u32 == 43 {
        proof {
            assert(s@[0] as int == 43);
            assert(s@[0] == '+');
        }
        i = 1;
    }
    let ghost body = numeral_body(s@);
    proof {
        assert(body =~= s@.subrange(i as int, n as int));
    }
    if i == n {
        return Option::None;
    }
    let mut acc: u64 = 0;
    let mut k: usize = i;
    while k < n
        invariant
            n == s@.len(),
            i <= k <= n,
            i < n,
            body == numeral_body(s@),
            body == s@.subrange(i as int, n as int),
            all_digits(body, k - i),
            acc as int == digits_val(body, k - i),
            acc <= 0xFFFF_FFFF,
        decreases n - k,
    {
        let c = s.get_char(k) as u32;
        if c < 48 || c > 57 {
            proof {
                assert(!is_digit(body[k - i]));
            }
            return Option::None;
        }
        proof {
            assert(body[k - i] == s@[k as int]);
            assert(is_digit(body[k - i]));
        }
        let d: u64 = (c - 48) as u64;
        let next: u64 = acc * 10 + d;
        proof {
            assert(digits_val(body, k - i + 1) == digits_val(body, k - i) * 10 + digit_val(
                body[k - i],
            ));
        }
        if next > 0xFFFF_FFFF {
            proof {
                if all_digits(body, body.len() as int) {
                    lemma_digits_val_monotone(body, k - i + 1, body.len() as int);
                }
            }
            return Option::None;
        }
        acc = next;
        k += 1;
    }
    Option::Some(acc as u32)
}

} // verus!
