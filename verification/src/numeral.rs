//! Decimal numerals: rendering integers as text and parsing text back,
//! each against an exact mathematical description.

use vstd::prelude::*;

verus! {

/// The decimal digit character for a value in `0..10`.
pub open spec fn spec_digit(d: int) -> char {
    if d == 0 {
        '0'
    } else if d == 1 {
        '1'
    } else if d == 2 {
        '2'
    } else if d == 3 {
        '3'
    } else if d == 4 {
        '4'
    } else if d == 5 {
        '5'
    } else if d == 6 {
        '6'
    } else if d == 7 {
        '7'
    } else if d == 8 {
        '8'
    } else {
        '9'
    }
}

/// The decimal rendering of a natural number, most significant digit first.
pub open spec fn spec_udec(n: nat) -> Seq<char>
    decreases n,
{
    if n < 10 {
        seq![spec_digit(n as int)]
    } else {
        spec_udec(n / 10) + seq![spec_digit((n % 10) as int)]
    }
}

/// The decimal rendering of an integer, with a leading minus sign when negative.
pub open spec fn spec_idec(n: int) -> Seq<char> {
    if n >= 0 {
        spec_udec(n as nat)
    } else {
        seq!['-'] + spec_udec((-n) as nat)
    }
}

/// A decimal digit character.
pub open spec fn is_digit_char(c: char) -> bool {
    '0' <= c && c <= '9'
}

/// The numeric value of a digit character.
pub open spec fn digit_char_val(c: char) -> int {
    c as int - '0' as int
}

/// The value of a sequence of digit characters, most significant first.
pub open spec fn spec_digits_val(s: Seq<char>) -> int
    decreases s.len(),
{
    if s.len() == 0 {
        0
    } else {
        spec_digits_val(s.drop_last()) * 10 + digit_char_val(s.last())
    }
}

/// Whether every character of `s` is a decimal digit.
pub open spec fn all_digits(s: Seq<char>) -> bool {
    forall|i: int| 0 <= i < s.len() ==> is_digit_char(#[trigger] s[i])
}

/// Whether `s` is a well-formed decimal numeral: one or more digits,
/// optionally preceded by a minus sign.
pub open spec fn is_numeral(s: Seq<char>) -> bool {
    if s.len() > 0 && s[0] == '-' {
        s.len() >= 2 && all_digits(s.skip(1))
    } else {
        s.len() >= 1 && all_digits(s)
    }
}

/// The integer value of a well-formed decimal numeral.
pub open spec fn spec_numeral_val(s: Seq<char>) -> int {
    if s.len() > 0 && s[0] == '-' {
        -spec_digits_val(s.skip(1))
    } else {
        spec_digits_val(s)
    }
}

/// A one-character string for a decimal digit value.
fn digit_str(d: u64) -> (r: String)
    requires
        d < 10,
    ensures
        r@ =~= seq![spec_digit(d as int)],
{
    proof {
        reveal_strlit("0");
        reveal_strlit("1");
        reveal_strlit("2");
        reveal_strlit("3");
        reveal_strlit("4");
        reveal_strlit("5");
        reveal_strlit("6");
        reveal_strlit("7");
        reveal_strlit("8");
        reveal_strlit("9");
    }
    if d == 0 {
        "0".to_owned()
    } else if d == 1 {
        "1".to_owned()
    } else if d == 2 {
        "2".to_owned()
    } else if d == 3 {
        "3".to_owned()
    } else if d == 4 {
        "4".to_owned()
    } else if d == 5 {
        "5".to_owned()
    } else if d == 6 {
        "6".to_owned()
    } else if d == 7 {
        "7".to_owned()
    } else if d == 8 {
        "8".to_owned()
    } else {
        "9".to_owned()
    }
}

/// Renders an unsigned integer as its decimal numeral.
pub fn u64_to_dec(n: u64) -> (r: String)
    ensures
        r@ == spec_udec(n as nat),
    decreases n,
{
    if n < 10 {
        digit_str(n)
    } else {
        let mut s = u64_to_dec(n / 10);
        let d = digit_str(n % 10);
        s.append(d.as_str());
        s
    }
}

/// Renders a signed integer as its decimal numeral.
pub fn i64_to_dec(n: i64) -> (r: String)
    ensures
        r@ == spec_idec(n as int),
{
    if n >= 0 {
        u64_to_dec(n as u64)
    } else {
        let mag_wide: i128 = -(n as i128);
        let mag: u64 = mag_wide as u64;
        proof {
            reveal_strlit("-");
        }
        let mut s = "-".to_owned();
        let d = u64_to_dec(mag);
        s.append(d.as_str());
        proof {
            assert(s@ =~= spec_idec(n as int));
        }
        s
    }
}

/// Parses a decimal numeral into a signed integer.
///
/// Returns the value exactly when the text is a well-formed numeral whose
/// value fits in the result type, and nothing otherwise.
pub fn parse_i64(s: &str) -> (r: Option<i64>)
    ensures
        match r {
            Some(v) => is_numeral(s@) && spec_numeral_val(s@) == v as int,
            None => !(is_numeral(s@) && i64::MIN <= spec_numeral_val(s@) <= i64::MAX),
        },
{
    let n = s.unicode_len();
    if n == 0 {
        return None;
    }
    let negative = s.get_char(0) == '-';
    let start: usize = if negative {
        1
    } else {
        0
    };
    if start >= n {
        return None;
    }
    let ghost digits: Seq<char> = s@.skip(start as int);
    proof {
        if !negative {
            assert(digits =~= s@);
        }
    }
    // Accumulate the magnitude as a non-positive number so that the most
    // negative representable value is reachable.
    let mut acc: i64 = 0;
    let mut i: usize = start;
    while i < n
        invariant
            start <= i <= n,
            n == s@.len(),
            start == if negative {
                1int
            } else {
                0int
            },
            negative ==> s@[0] == '-',
            !negative ==> s@[0] != '-',
            digits == s@.skip(start as int),
            !negative ==> digits == s@,
            acc <= 0,
            all_digits(s@.subrange(start as int, i as int)),
            acc == -spec_digits_val(s@.subrange(start as int, i as int)),
        decreases n - i,
    {
        let c = s.get_char(i);
        if !('0' <= c && c <= '9') {
            proof {
                assert(digits[i - start] == s@[i as int]);
                assert(!is_digit_char(digits[i - start]));
                assert(!all_digits(digits));
            }
            return None;
        }
        let d = (c as u32) - ('0' as u32);
        let next = match acc.checked_mul(10) {
            Some(m) => m.checked_sub(d as i64),
            None => None,
        };
        match next {
            Some(v) => {
                proof {
                    assert(s@.subrange(start as int, i + 1 as int).drop_last() =~= s@.subrange(
                        start as int,
                        i as int,
                    ));
                    assert(s@.subrange(start as int, i + 1 as int).last() == s@[i as int]);
                }
                acc = v;
            },
            None => {
                proof {
                    let pre = s@.subrange(start as int, i + 1 as int);
                    assert(pre.drop_last() =~= s@.subrange(start as int, i as int));
                    assert(pre.last() == s@[i as int]);
                    assert(pre =~= digits.take((i - start + 1) as int));
                    assert(spec_digits_val(pre) > i64::MAX);
                    if all_digits(digits) {
                        lemma_digits_val_grows(digits, (i - start + 1) as int);
                        assert(spec_digits_val(digits) > i64::MAX);
                    }
                }
                return None;
            },
        }
        i = i + 1;
    }
    proof {
        assert(s@.subrange(start as int, n as int) =~= digits);
    }
    if negative {
        Some(acc)
    } else {
        if acc == i64::MIN {
            proof {
                assert(spec_numeral_val(s@) == -(acc as int));
            }
            return None;
        }
        Some(-acc)
    }
}

/// The value of a digit prefix never shrinks as more digits are read:
/// if a prefix of `s` already exceeds the magnitude that the accumulator
/// can hold, the whole of `s` does too.
proof fn lemma_digits_val_grows(s: Seq<char>, i: int)
    requires
        0 <= i <= s.len(),
        all_digits(s),
    ensures
        spec_digits_val(s) >= spec_digits_val(s.take(i)),
        spec_digits_val(s.take(i)) >= 0,
    decreases s.len() - i,
{
    if i == s.len() {
        assert(s.take(i) =~= s);
        lemma_digits_val_nonneg(s);
    } else {
        lemma_digits_val_grows(s, i + 1);
        assert(s.take(i + 1).drop_last() =~= s.take(i));
        assert(is_digit_char(s[i]));
        lemma_digits_val_nonneg(s.take(i));
    }
}

/// A sequence of digits has a non-negative value.
proof fn lemma_digits_val_nonneg(s: Seq<char>)
    requires
        all_digits(s),
    ensures
        spec_digits_val(s) >= 0,
    decreases s.len(),
{
    if s.len() > 0 {
        assert(all_digits(s.drop_last()));
        lemma_digits_val_nonneg(s.drop_last());
        assert(is_digit_char(s.last()));
    }
}

} // verus!
