//! Decimal parsing for the integer accessors, together with the exact
//! statement of which strings parse and to what value.

use vstd::prelude::*;
use vstd::string::StrSliceExecFns;

verus! {

/// Decimal digit.
pub open spec fn is_digit(c: char) -> bool {
    48 <= c as u32 <= 57
}

/// Numeric value of a decimal digit.
pub open spec fn digit_val(c: char) -> int {
    c as u32 - 48
}

pub open spec fn all_digits(s: Seq<char>) -> bool {
    forall|i: int| 0 <= i < s.len() ==> is_digit(s[i])
}

/// Value of a digit string read in base ten.
pub open spec fn digits_val(s: Seq<char>) -> int
    decreases s.len(),
{
    if s.len() == 0 {
        0
    } else {
        digits_val(s.drop_last()) * 10 + digit_val(s.last())
    }
}

/// Which strings parse as a `u32`: an optional leading `+`, then one or more
/// decimal digits, with the value in range.
pub open spec fn parse_u32_spec(s: Seq<char>) -> Option<u32> {
    let body = if s.len() > 0 && s[0] == '+' {
        s.drop_first()
    } else {
        s
    };
    if body.len() > 0 && all_digits(body) && digits_val(body) <= u32::MAX {
        Some(digits_val(body) as u32)
    } else {
        None
    }
}

/// Which strings parse as an `i32`: an optional leading sign, then one or more
/// decimal digits, with the signed value in range.
pub open spec fn parse_i32_spec(s: Seq<char>) -> Option<i32> {
    let sign: int = if s.len() > 0 && s[0] == '-' {
        -1
    } else {
        1
    };
    let body = if s.len() > 0 && (s[0] == '-' || s[0] == '+') {
        s.drop_first()
    } else {
        s
    };
    if body.len() > 0 && all_digits(body) && i32::MIN <= sign * digits_val(body) <= i32::MAX {
        Some((sign * digits_val(body)) as i32)
    } else {
        None
    }
}

/// The value recorded for `k`, read as an `i32`; absent when the flag is
/// missing or its value does not parse.
pub open spec fn parsed_i32(m: Map<Seq<char>, Seq<char>>, k: Seq<char>) -> Option<i32> {
    if m.contains_key(k) {
        parse_i32_spec(m[k])
    } else {
        None
    }
}

/// The value recorded for `k`, read as a `u32`; absent when the flag is
/// missing or its value does not parse.
pub open spec fn parsed_u32(m: Map<Seq<char>, Seq<char>>, k: Seq<char>) -> Option<u32> {
    if m.contains_key(k) {
        parse_u32_spec(m[k])
    } else {
        None
    }
}

pub proof fn lemma_digits_val_nonneg(s: Seq<char>)
    requires
        all_digits(s),
    ensures
        digits_val(s) >= 0,
    decreases s.len(),
{
    if s.len() > 0 {
        lemma_digits_val_nonneg(s.drop_last());
    }
}

/// Digit accumulators saturate here: one past the largest value the integer
/// accessors can accept.
const DIGIT_CAP: u64 = 0x1_0000_0000;

/// Reads the run of digits from `start` to the end of the token. The result is
/// the exact value up to `u32::MAX` and saturates above it, so that callers can
/// tell overflow apart without leaving `u64`.
fn parse_digits(s: &str, start: usize) -> (r: Option<u64>)
    requires
        start <= s@.len(),
    ensures
        ({
            let body = s@.skip(start as int);
            match r {
                Some(m) => {
                    &&& body.len() > 0
                    &&& all_digits(body)
                    &&& m <= DIGIT_CAP
                    &&& (digits_val(body) <= u32::MAX ==> m == digits_val(body))
                    &&& (digits_val(body) > u32::MAX ==> m == DIGIT_CAP)
                },
                None => !(body.len() > 0 && all_digits(body)),
            }
        }),
{
    let ghost body = s@.skip(start as int);
    let n = s.unicode_len();
    if start == n {
        return None;
    }
    let mut i: usize = start;
    let mut m: u64 = 0;
    while i < n
        invariant
            start <= i <= n,
            n == s@.len(),
            body == s@.skip(start as int),
            all_digits(s@.subrange(start as int, i as int)),
            m <= DIGIT_CAP,
            digits_val(s@.subrange(start as int, i as int)) <= u32::MAX ==> m == digits_val(
                s@.subrange(start as int, i as int),
            ),
            digits_val(s@.subrange(start as int, i as int)) > u32::MAX ==> m == DIGIT_CAP,
        decreases n - i,
    {
        let ghost seen = s@.subrange(start as int, i as int);
        let c = s.get_char(i);
        let cv = c as u32;
        if cv < 48 || cv > 57 {
            proof {
                assert(body[i - start] == c);
            }
            return None;
        }
        let d = (cv - 48) as u64;
        proof {
            assert(s@.subrange(start as int, i + 1 as int) =~= seen.push(c));
            assert(seen.push(c).drop_last() =~= seen);
            assert(digits_val(seen.push(c)) == digits_val(seen) * 10 + digit_val(c));
            lemma_digits_val_nonneg(seen);
        }
        m = m * 10 + d;
        if m > 0xFFFF_FFFF {
            m = DIGIT_CAP;
        }
        i = i + 1;
    }
    proof {
        assert(s@.subrange(start as int, n as int) =~= body);
    }
    Some(m)
}

/// Parses the token as Rust's `u32::from_str` does.
pub fn parse_u32_str(s: &str) -> (r: Option<u32>)
    ensures
        r == parse_u32_spec(s@),
{
    let n = s.unicode_len();
    let start: usize = if n > 0 && s.get_char(0) == '+' {
        1
    } else {
        0
    };
    proof {
        if start == 0 {
            assert(s@.skip(0) =~= s@);
        } else {
            assert(s@.skip(1) =~= s@.drop_first());
        }
    }
    match parse_digits(s, start) {
        Some(m) => {
            if m <= 0xFFFF_FFFF {
                Some(m as u32)
            } else {
                None
            }
        },
        None => None,
    }
}

/// Parses the token as Rust's `i32::from_str` does.
pub fn parse_i32_str(s: &str) -> (r: Option<i32>)
    ensures
        r == parse_i32_spec(s@),
{
    let n = s.unicode_len();
    let neg = n > 0 && s.get_char(0) == '-';
    let start: usize = if n > 0 && (s.get_char(0) == '+' || s.get_char(0) == '-') {
        1
    } else {
        0
    };
    proof {
        if start == 0 {
            assert(s@.skip(0) =~= s@);
        } else {
            assert(s@.skip(1) =~= s@.drop_first());
        }
    }
    let ghost body = s@.skip(start as int);
    let ghost sign: int = if neg {
        -1
    } else {
        1
    };
    match parse_digits(s, start) {
        Some(m) => {
            if neg {
                if m < 0x8000_0000 {
                    proof {
                        assert(m == digits_val(body));
                        assert(sign * digits_val(body) == -(m as int));
                        assert(i32::MIN <= sign * digits_val(body) <= i32::MAX);
                    }
                    Some(-(m as i32))
                } else if m == 0x8000_0000 {
                    proof {
                        assert(m == digits_val(body));
                        assert(sign * digits_val(body) == i32::MIN);
                    }
                    Some(i32::MIN)
                } else {
                    proof {
                        assert(digits_val(body) > 0x8000_0000);
                        assert(sign * digits_val(body) < i32::MIN);
                    }
                    None
                }
            } else {
                if m <= 0x7FFF_FFFF {
                    proof {
                        assert(m == digits_val(body));
                        assert(sign * digits_val(body) == m);
                    }
                    Some(m as i32)
                } else {
                    proof {
                        assert(digits_val(body) > 0x7FFF_FFFF);
                        assert(sign * digits_val(body) > i32::MAX);
                    }
                    None
                }
            }
        },
        None => None,
    }
}

} // verus!
