//! Integer literals: an optional sign and digits in a given base.

use vstd::prelude::*;

verus! {

/// The value of `c` as a digit in base `radix`, where it is one: `0` to `9`
/// count 0 to 9, letters of either case count from 10 on.
pub open spec fn digit(c: char, radix: int) -> Option<int> {
    let d = if '0' <= c && c <= '9' {
        c as int - '0' as int
    } else if 'a' <= c && c <= 'z' {
        c as int - 'a' as int + 10
    } else if 'A' <= c && c <= 'Z' {
        c as int - 'A' as int + 10
    } else {
        radix
    };
    if d < radix {
        Some(d)
    } else {
        None
    }
}

/// Tells whether every character of `s` is a digit in base `radix`.
pub open spec fn all_digits(s: Seq<char>, radix: int) -> bool {
    forall|i: int| 0 <= i < s.len() ==> (#[trigger] digit(s[i], radix)) is Some
}

/// The number that the digits of `s` write in base `radix`, most
/// significant digit first.
pub open spec fn magnitude(s: Seq<char>, radix: int) -> int
    decreases s.len(),
{
    if s.len() == 0 {
        0
    } else {
        magnitude(s.drop_last(), radix) * radix + digit(s.last(), radix).unwrap()
    }
}

/// Tells whether `s` starts with a minus sign that counts as one.
pub open spec fn is_negative(s: Seq<char>, signed: bool) -> bool {
    signed && s.len() > 0 && s[0] == '-'
}

/// What follows the sign of `s`, or `s` itself where it has no sign. A plus
/// sign is always one; a minus sign only for a signed number.
pub open spec fn unsigned_part(s: Seq<char>, signed: bool) -> Seq<char> {
    if s.len() > 0 && (s[0] == '+' || is_negative(s, signed)) {
        s.drop_first()
    } else {
        s
    }
}

/// The integer that `s` writes in base `radix`: an optional sign followed by
/// one digit or more and nothing else. Without a value where `s` is not of
/// that form.
pub open spec fn integer(s: Seq<char>, radix: int, signed: bool) -> Option<int> {
    let body = unsigned_part(s, signed);
    if body.len() > 0 && all_digits(body, radix) {
        if is_negative(s, signed) {
            Some(-magnitude(body, radix))
        } else {
            Some(magnitude(body, radix))
        }
    } else {
        None
    }
}

/// The integer that `s` writes, where it lies between `min` and `max`.
pub open spec fn integer_within(s: Seq<char>, radix: int, signed: bool, min: int, max: int)
    -> Option<int> {
    match integer(s, radix, signed) {
        Some(v) => if min <= v <= max {
            Some(v)
        } else {
            None
        },
        None => None,
    }
}

/// An unsigned decimal number of 8 bits.
pub open spec fn decimal_u8(s: Seq<char>) -> Option<int> {
    integer_within(s, 10, false, 0, 255)
}

/// A signed decimal number of 8 bits.
pub open spec fn decimal_i8(s: Seq<char>) -> Option<int> {
    integer_within(s, 10, true, -128, 127)
}

/// An unsigned hexadecimal number of 16 bits.
pub open spec fn hex_u16(s: Seq<char>) -> Option<int> {
    integer_within(s, 16, false, 0, 0xFFFF)
}

/// A number does not get smaller when digits are appended to it.
pub proof fn lemma_magnitude_grows(s: Seq<char>, k: int, radix: int)
    requires
        0 <= k <= s.len(),
        radix >= 1,
        all_digits(s, radix),
    ensures
        0 <= magnitude(s.take(k), radix) <= magnitude(s, radix),
    decreases s.len() - k,
{
    lemma_magnitude_nonnegative(s.take(k), radix);
    if k == s.len() {
        assert(s.take(k) == s);
    } else {
        let t = s.take(k + 1);
        assert(t.drop_last() == s.take(k));
        assert(t.last() == s[k]);
        assert(digit(s[k], radix) is Some);
        let m = magnitude(s.take(k), radix);
        assert(m * radix >= m) by (nonlinear_arith)
            requires
                m >= 0,
                radix >= 1,
        ;
        lemma_magnitude_grows(s, k + 1, radix);
    }
}

/// A number written with digits is not negative.
pub proof fn lemma_magnitude_nonnegative(s: Seq<char>, radix: int)
    requires
        radix >= 1,
        all_digits(s, radix),
    ensures
        0 <= magnitude(s, radix),
    decreases s.len(),
{
    if s.len() > 0 {
        assert forall|i: int| 0 <= i < s.drop_last().len() implies (#[trigger] digit(
            s.drop_last()[i],
            radix,
        )) is Some by {
            assert(s.drop_last()[i] == s[i]);
        }
        lemma_magnitude_nonnegative(s.drop_last(), radix);
        assert(digit(s.last(), radix) is Some);
        let m = magnitude(s.drop_last(), radix);
        assert(m * radix >= 0) by (nonlinear_arith)
            requires
                m >= 0,
                radix >= 1,
        ;
    }
}

/// The value of `c` as a digit in base `radix`.
pub fn digit_of(c: char, radix: u32) -> (d: Option<u32>)
    requires
        2 <= radix <= 36,
    ensures
        match digit(c, radix as int) {
            Some(v) => d == Some(v as u32) && v < radix,
            None => d is None,
        },
{
    let v: u32 = if c >= '0' && c <= '9' {
        c as u32 - '0' as u32
    } else if c >= 'a' && c <= 'z' {
        c as u32 - 'a' as u32 + 10
    } else if c >= 'A' && c <= 'Z' {
        c as u32 - 'A' as u32 + 10
    } else {
        radix
    };
    if v < radix {
        Some(v)
    } else {
        None
    }
}

/// Reads `token` as an integer in base `radix` that lies between `min` and
/// `max`.
pub fn parse_integer(token: &Vec<char>, radix: u32, signed: bool, min: i32, max: i32) -> (r:
    Option<i32>)
    requires
        2 <= radix <= 36,
    ensures
        match integer_within(token@, radix as int, signed, min as int, max as int) {
            Some(v) => r == Some(v as i32) && min <= v <= max,
            None => r is None,
        },
{
    let n = token.len();
    let negative = signed && n > 0 && token[0] == '-';
    let start: usize = if n > 0 && (token[0] == '+' || negative) {
        1
    } else {
        0
    };
    let ghost body = unsigned_part(token@, signed);
    assert(body == token@.subrange(start as int, n as int));
    if start == n {
        return None;
    }
    // No number in range has a magnitude above this.
    let limit: i64 = 0x8000_0000;
    let mut acc: i64 = 0;
    let mut i: usize = start;
    while i < n
        invariant
            start <= i <= n == token.len(),
            body == token@.subrange(start as int, n as int),
            body == unsigned_part(token@, signed),
            2 <= radix <= 36,
            limit == 0x8000_0000,
            all_digits(body.take(i - start), radix as int),
            acc == magnitude(body.take(i - start), radix as int),
            0 <= acc <= limit,
        decreases n - i,
    {
        let ghost seen = body.take(i - start);
        let ghost more = body.take(i - start + 1);
        assert(more.drop_last() == seen);
        assert(more.last() == token@[i as int]);
        match digit_of(token[i], radix) {
            None => {
                assert(digit(body[i - start], radix as int) is None);
                return None;
            },
            Some(d) => {
                assert(acc * radix + d <= 0x8000_0000 * 36 + 36) by (nonlinear_arith)
                    requires
                        0 <= acc <= 0x8000_0000,
                        0 <= d < radix <= 36,
                ;
                let next: i64 = acc * (radix as i64) + (d as i64);
                assert(next == magnitude(more, radix as int));
                assert forall|j: int| 0 <= j < more.len() implies (#[trigger] digit(
                    more[j],
                    radix as int,
                )) is Some by {
                    if j < seen.len() {
                        assert(more[j] == seen[j]);
                    }
                }
                if next > limit {
                    proof {
                        if all_digits(body, radix as int) {
                            lemma_magnitude_grows(body, i - start + 1, radix as int);
                        }
                    }
                    return None;
                }
                acc = next;
            },
        }
        i += 1;
    }
    assert(body.take(n - start) == body);
    let value: i64 = if negative {
        -acc
    } else {
        acc
    };
    if min as i64 <= value && value <= max as i64 {
        Some(value as i32)
    } else {
        None
    }
}

} // verus!
