//! Numeric line validation: an exact decimal integer parser and a syntax
//! check for decimal floating-point literals. Prompt loops accept a line
//! exactly when these functions do.

use vstd::prelude::*;

verus! {

/// An ASCII decimal digit.
pub open spec fn is_digit(c: char) -> bool {
    48 <= c as u32 && c as u32 <= 57
}

/// The numeric value of an ASCII decimal digit.
pub open spec fn digit_val(c: char) -> int {
    c as u32 - 48
}

/// Every character of `s` is an ASCII decimal digit.
pub open spec fn all_digits(s: Seq<char>) -> bool {
    forall|j: int| 0 <= j < s.len() ==> is_digit(#[trigger] s[j])
}

/// `s` without its single leading `+` or `-`, if it has one.
pub open spec fn sign_stripped(s: Seq<char>) -> Seq<char> {
    if s.len() > 0 && (s[0] == '+' || s[0] == '-') {
        s.drop_first()
    } else {
        s
    }
}

/// A decimal integer literal: an optional sign followed by one or more
/// digits.
pub open spec fn is_int_literal(s: Seq<char>) -> bool {
    sign_stripped(s).len() > 0 && all_digits(sign_stripped(s))
}

/// The value of a digit string read in base ten.
pub open spec fn digits_value(s: Seq<char>) -> int
    decreases s.len(),
{
    if s.len() == 0 {
        0
    } else {
        digits_value(s.drop_last()) * 10 + digit_val(s.last())
    }
}

/// The signed value of a decimal integer literal.
pub open spec fn int_literal_value(s: Seq<char>) -> int {
    if s.len() > 0 && s[0] == '-' {
        -digits_value(sign_stripped(s))
    } else {
        digits_value(sign_stripped(s))
    }
}

/// Why a line was rejected as an integer.
#[derive(Clone, Copy, PartialEq, Eq, Structural, Debug)]
pub enum IntParseError {
    /// The line is not an optional sign followed by one or more digits.
    BadSyntax,
    /// The line is a well-formed integer, but outside the `i32` range.
    OutOfRange,
}

proof fn lemma_digits_value_nonneg(s: Seq<char>)
    requires
        all_digits(s),
    ensures
        digits_value(s) >= 0,
    decreases s.len(),
{
    if s.len() > 0 {
        assert(all_digits(s.drop_last())) by {
            assert(forall|j: int| 0 <= j < s.len() - 1 ==> s.drop_last()[j] == #[trigger] s[j]);
        }
        lemma_digits_value_nonneg(s.drop_last());
    }
}

/// Parses a decimal integer, accepting exactly the well-formed literals whose
/// value fits in `i32`, and reporting for every other line why it fails.
pub fn parse_i32(s: &str) -> (r: Result<i32, IntParseError>)
    ensures
        match r {
            Ok(v) => is_int_literal(s@) && i32::MIN <= int_literal_value(s@) <= i32::MAX
                && v as int == int_literal_value(s@),
            Err(IntParseError::BadSyntax) => !is_int_literal(s@),
            Err(IntParseError::OutOfRange) => is_int_literal(s@) && !(i32::MIN
                <= int_literal_value(s@) <= i32::MAX),
        },
{
    let n = s.unicode_len();
    let mut i: usize = 0;
    let mut neg = false;
    if n > 0 {
        let c0 = s.get_char(0);
        if c0 == '+' {
            i = 1;
        } else if c0 == '-' {
            neg = true;
            i = 1;
        }
    }
    proof {
        if i == 1 {
            assert(sign_stripped(s@) =~= s@.skip(1));
        } else {
            assert(sign_stripped(s@) =~= s@.skip(0));
            assert(s@.skip(0) =~= s@);
        }
    }
    if i == n {
        // No digits at all: an empty line or a bare sign.
        return Err(IntParseError::BadSyntax);
    }
    let ghost body = sign_stripped(s@);
    let mut mag: u64 = 0;
    let mut too_big = false;
    let mut k = i;
    proof {
        assert(s@.subrange(i as int, i as int) =~= Seq::<char>::empty());
    }
    while k < n
        invariant
            i <= k <= n,
            n == s@.len(),
            body == s@.skip(i as int),
            body == sign_stripped(s@),
            forall|j: int| i <= j < k ==> is_digit(#[trigger] s@[j]),
            !too_big ==> mag as int == digits_value(s@.subrange(i as int, k as int)) && mag
                <= 0x8000_0000,
            too_big ==> digits_value(s@.subrange(i as int, k as int)) > 0x8000_0000,
        decreases n - k,
    {
        let c = s.get_char(k);
        let u = c as u32;
        if !(48 <= u && u <= 57) {
            // A non-digit inside the body: not an integer literal.
            assert(!all_digits(body)) by {
                assert(body[k - i] == s@[k as int]);
            }
            return Err(IntParseError::BadSyntax);
        }
        let d: u64 = (u - 48) as u64;
        let ghost pre = s@.subrange(i as int, k as int);
        let ghost ext = s@.subrange(i as int, k as int + 1);
        proof {
            assert(ext.drop_last() =~= pre);
            assert(ext.last() == s@[k as int]);
            assert(all_digits(pre));
            lemma_digits_value_nonneg(pre);
        }
        if too_big {
            proof {
                assert(digits_value(ext) == digits_value(pre) * 10 + digit_val(s@[k as int]));
                assert(digits_value(pre) * 10 >= digits_value(pre)) by {
                    assert(digits_value(pre) * 10 - digits_value(pre) == digits_value(pre) * 9);
                    assert(digits_value(pre) * 9 >= 0);
                }
            }
        } else {
            let m2 = mag * 10 + d;
            if m2 > 0x8000_0000 {
                too_big = true;
            } else {
                mag = m2;
            }
        }
        k = k + 1;
    }
    proof {
        assert(body =~= s@.subrange(i as int, n as int));
        assert(all_digits(body));
        assert(body.len() > 0);
        assert(is_int_literal(s@));
        if neg {
            assert(s@[0] == '-');
            assert(int_literal_value(s@) == -digits_value(body));
        } else {
            assert(int_literal_value(s@) == digits_value(body));
        }
    }
    if too_big {
        return Err(IntParseError::OutOfRange);
    }
    if neg {
        if mag == 0x8000_0000 {
            Ok(i32::MIN)
        } else {
            Ok(-(mag as i32))
        }
    } else {
        if mag > 0x7FFF_FFFF {
            Err(IntParseError::OutOfRange)
        } else {
            Ok(mag as i32)
        }
    }
}

/// `s` spells `w` up to ASCII case, where `w` is given in lower case.
pub open spec fn matches_ci(s: Seq<char>, w: Seq<char>) -> bool {
    s.len() == w.len() && forall|j: int|
        0 <= j < s.len() ==> (#[trigger] s[j]) as u32 == w[j] as u32 || s[j] as u32 + 32
            == w[j] as u32
}

/// The named non-finite floating-point values, compared case-insensitively.
pub open spec fn is_special_float_body(s: Seq<char>) -> bool {
    ||| matches_ci(s, seq!['i', 'n', 'f'])
    ||| matches_ci(s, seq!['i', 'n', 'f', 'i', 'n', 'i', 't', 'y'])
    ||| matches_ci(s, seq!['n', 'a', 'n'])
}

/// A decimal exponent body: an optional sign followed by one or more digits.
pub open spec fn exponent_ok(s: Seq<char>) -> bool {
    sign_stripped(s).len() > 0 && all_digits(sign_stripped(s))
}

/// A decimal mantissa read left to right: digits with at most one point, at
/// least one digit in all, and an optional exponent once a digit was seen.
pub open spec fn mantissa_ok(s: Seq<char>, seen_digit: bool, seen_dot: bool) -> bool
    decreases s.len(),
{
    if s.len() == 0 {
        seen_digit
    } else if is_digit(s[0]) {
        mantissa_ok(s.drop_first(), true, seen_dot)
    } else if s[0] == '.' && !seen_dot {
        mantissa_ok(s.drop_first(), seen_digit, seen_dot || true)
    } else if (s[0] == 'e' || s[0] == 'E') && seen_digit {
        exponent_ok(s.drop_first())
    } else {
        false
    }
}

/// A decimal floating-point literal: an optional sign, then either one of the
/// named non-finite values or a mantissa with optional exponent.
pub open spec fn is_float_literal(s: Seq<char>) -> bool {
    is_special_float_body(sign_stripped(s)) || mantissa_ok(sign_stripped(s), false, false)
}

/// Decides whether `s` (with the given body start) spells one of the named
/// non-finite values.
fn body_is_special(s: &str, i: usize) -> (b: bool)
    requires
        i <= s@.len(),
    ensures
        b == is_special_float_body(s@.skip(i as int)),
{
    let n = s.unicode_len();
    let m = n - i;
    let ghost body = s@.skip(i as int);
    if m == 3 {
        let c0 = s.get_char(i) as u32;
        let c1 = s.get_char(i + 1) as u32;
        let c2 = s.get_char(i + 2) as u32;
        let inf = (c0 == 105 || c0 == 73) && (c1 == 110 || c1 == 78) && (c2 == 102 || c2 == 70);
        let nan = (c0 == 110 || c0 == 78) && (c1 == 97 || c1 == 65) && (c2 == 110 || c2 == 78);
        proof {
            assert(body.len() == 3);
            assert(body[0] == s@[i as int] && body[1] == s@[i as int + 1] && body[2] == s@[i as int
                + 2]);
            assert(!matches_ci(body, seq!['i', 'n', 'f', 'i', 'n', 'i', 't', 'y']));
            if inf {
                assert(matches_ci(body, seq!['i', 'n', 'f'])) by {
                    assert('i' as u32 == 105 && 'n' as u32 == 110 && 'f' as u32 == 102);
                }
            } else {
                assert(!matches_ci(body, seq!['i', 'n', 'f'])) by {
                    assert('i' as u32 == 105 && 'n' as u32 == 110 && 'f' as u32 == 102);
                }
            }
            if nan {
                assert(matches_ci(body, seq!['n', 'a', 'n'])) by {
                    assert('n' as u32 == 110 && 'a' as u32 == 97);
                }
            } else {
                assert(!matches_ci(body, seq!['n', 'a', 'n'])) by {
                    assert('n' as u32 == 110 && 'a' as u32 == 97);
                }
            }
        }
        inf || nan
    } else if m == 8 {
        let c0 = s.get_char(i) as u32;
        let c1 = s.get_char(i + 1) as u32;
        let c2 = s.get_char(i + 2) as u32;
        let c3 = s.get_char(i + 3) as u32;
        let c4 = s.get_char(i + 4) as u32;
        let c5 = s.get_char(i + 5) as u32;
        let c6 = s.get_char(i + 6) as u32;
        let c7 = s.get_char(i + 7) as u32;
        let infinity = (c0 == 105 || c0 == 73) && (c1 == 110 || c1 == 78) && (c2 == 102 || c2
            == 70) && (c3 == 105 || c3 == 73) && (c4 == 110 || c4 == 78) && (c5 == 105 || c5 == 73)
            && (c6 == 116 || c6 == 84) && (c7 == 121 || c7 == 89);
        proof {
            assert(body.len() == 8);
            assert(body[0] == s@[i as int] && body[1] == s@[i as int + 1] && body[2] == s@[i as int
                + 2] && body[3] == s@[i as int + 3] && body[4] == s@[i as int + 4] && body[5]
                == s@[i as int + 5] && body[6] == s@[i as int + 6] && body[7] == s@[i as int + 7]);
            let w = seq!['i', 'n', 'f', 'i', 'n', 'i', 't', 'y'];
            assert('i' as u32 == 105 && 'n' as u32 == 110 && 'f' as u32 == 102 && 't' as u32 == 116
                && 'y' as u32 == 121);
            assert(w[0] == 'i' && w[1] == 'n' && w[2] == 'f' && w[3] == 'i' && w[4] == 'n' && w[5]
                == 'i' && w[6] == 't' && w[7] == 'y');
            if infinity {
                assert(matches_ci(body, w));
            } else {
                assert(!matches_ci(body, w));
            }
            assert(!matches_ci(body, seq!['i', 'n', 'f']));
            assert(!matches_ci(body, seq!['n', 'a', 'n']));
        }
        infinity
    } else {
        proof {
            assert(body.len() != 3 && body.len() != 8);
            assert(!matches_ci(body, seq!['i', 'n', 'f']));
            assert(!matches_ci(body, seq!['i', 'n', 'f', 'i', 'n', 'i', 't', 'y']));
            assert(!matches_ci(body, seq!['n', 'a', 'n']));
        }
        false
    }
}

/// Decides whether the whole of `s` is a decimal floating-point literal, the
/// syntax an interval line must have to be accepted.
pub fn is_float_text(s: &str) -> (b: bool)
    ensures
        b == is_float_literal(s@),
{
    let n = s.unicode_len();
    let mut i: usize = 0;
    if n > 0 {
        let c0 = s.get_char(0);
        if c0 == '+' || c0 == '-' {
            i = 1;
        }
    }
    proof {
        if i == 1 {
            assert(sign_stripped(s@) =~= s@.skip(1));
        } else {
            assert(sign_stripped(s@) =~= s@.skip(0));
            assert(s@.skip(0) =~= s@);
        }
    }
    let ghost body = sign_stripped(s@);
    if body_is_special(s, i) {
        return true;
    }
    // Not a named value: scan the mantissa state machine.
    let mut k = i;
    let mut seen_digit = false;
    let mut seen_dot = false;
    loop
        invariant
            i <= k <= n,
            n == s@.len(),
            body == s@.skip(i as int),
            body == sign_stripped(s@),
            !is_special_float_body(body),
            mantissa_ok(body, false, false) == mantissa_ok(s@.skip(k as int), seen_digit, seen_dot),
        decreases n - k,
    {
        let ghost rest = s@.skip(k as int);
        if k == n {
            proof {
                assert(rest =~= Seq::<char>::empty());
            }
            return seen_digit;
        }
        proof {
            assert(rest.len() > 0);
            assert(rest[0] == s@[k as int]);
            assert(rest.drop_first() =~= s@.skip(k as int + 1));
        }
        let c = s.get_char(k);
        let u = c as u32;
        if 48 <= u && u <= 57 {
            seen_digit = true;
        } else if c == '.' && !seen_dot {
            seen_dot = true;
        } else if (c == 'e' || c == 'E') && seen_digit {
            // The rest of the line must be an exponent body.
            let mut m = k + 1;
            let ghost etail = s@.skip(k as int + 1);
            if m < n {
                let c1 = s.get_char(m);
                if c1 == '+' || c1 == '-' {
                    m = m + 1;
                }
            }
            proof {
                if m == k + 2 {
                    assert(sign_stripped(etail) =~= s@.skip(m as int)) by {
                        assert(etail.len() > 0 && (etail[0] == '+' || etail[0] == '-'));
                        assert(etail.drop_first() =~= s@.skip(k as int + 2));
                    }
                } else {
                    if etail.len() > 0 && (etail[0] == '+' || etail[0] == '-') {
                        assert(etail[0] == s@[k as int + 1]);
                        assert(false);
                    }
                    assert(sign_stripped(etail) =~= s@.skip(m as int));
                }
            }
            let ghost ebody = sign_stripped(etail);
            if m == n {
                proof {
                    assert(ebody =~= Seq::<char>::empty());
                }
                return false;
            }
            let mut t = m;
            while t < n
                invariant
                    m <= t <= n,
                    m < n,
                    n == s@.len(),
                    ebody == s@.skip(m as int),
                    ebody == sign_stripped(etail),
                    mantissa_ok(body, false, false) == exponent_ok(etail),
                    body == sign_stripped(s@),
                    !is_special_float_body(body),
                    forall|j: int| m <= j < t ==> is_digit(#[trigger] s@[j]),
                decreases n - t,
            {
                let ct = s.get_char(t) as u32;
                if !(48 <= ct && ct <= 57) {
                    assert(!all_digits(ebody)) by {
                        assert(ebody[t - m] == s@[t as int]);
                    }
                    return false;
                }
                t = t + 1;
            }
            proof {
                assert(ebody =~= s@.subrange(m as int, n as int));
                assert(all_digits(ebody)) by {
                    assert(forall|j: int|
                        0 <= j < ebody.len() ==> #[trigger] ebody[j] == s@[m + j]);
                }
                assert(ebody.len() > 0);
            }
            return true;
        } else {
            return false;
        }
        k = k + 1;
    }
}

} // verus!
