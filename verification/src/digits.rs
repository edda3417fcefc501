//! Decimal rendering and parsing of integers, used when building query
//! strings for the upstream feed and when reading numeric settings.

use vstd::prelude::*;
use vstd::string::StringExecFns;
use vstd::string::StrSliceExecFns;

verus! {

/// The character for one decimal digit value.
pub open spec fn digit_char(d: int) -> char {
    if d == 0 {
        '0'
    } else if d == 1 {
        '1'
    } else if d == 2 {
        '2'
    } else if d == 3 {
        '3'
    } else if d == 4 {
        '4'
    } else if d == 5 {
        '5'
    } else if d == 6 {
        '6'
    } else if d == 7 {
        '7'
    } else if d == 8 {
        '8'
    } else {
        '9'
    }
}

/// The decimal rendering of a non-negative integer, most significant
/// digit first, with no leading zeros (a single `'0'` for zero).
pub open spec fn dec_str(n: int) -> Seq<char>
    decreases n,
{
    if n < 10 {
        seq![digit_char(n)]
    } else {
        dec_str(n / 10).push(digit_char(n % 10))
    }
}

/// The decimal rendering of a signed integer: a leading `'-'` for a
/// negative value, then the digits of its magnitude.
pub open spec fn dec_str_signed(n: int) -> Seq<char> {
    if n < 0 {
        seq!['-'] + dec_str(-n)
    } else {
        dec_str(n)
    }
}

/// One decimal digit value as a one-character string slice.
fn digit_str(d: u8) -> (r: &'static str)
    requires
        d < 10,
    ensures
        r@ =~= seq![digit_char(d as int)],
{
    proof {
        reveal_strlit("0");
        reveal_strlit("1");
        reveal_strlit("2");
        reveal_strlit("3");
        reveal_strlit("4");
        reveal_strlit("5");
        reveal_strlit("6");
        reveal_strlit("7");
        reveal_strlit("8");
        reveal_strlit("9");
    }
    if d == 0 {
        "0"
    } else if d == 1 {
        "1"
    } else if d == 2 {
        "2"
    } else if d == 3 {
        "3"
    } else if d == 4 {
        "4"
    } else if d == 5 {
        "5"
    } else if d == 6 {
        "6"
    } else if d == 7 {
        "7"
    } else if d == 8 {
        "8"
    } else {
        "9"
    }
}

/// Appends the decimal rendering of `n` to `s`.
pub fn push_dec_u64(s: &mut String, n: u64)
    ensures
        final(s)@ == old(s)@ + dec_str(n as int),
    decreases n,
{
    if n >= 10 {
        push_dec_u64(s, n / 10);
        s.append(digit_str((n % 10) as u8));
        proof {
            assert(s@ =~= old(s)@ + dec_str(n as int));
        }
    } else {
        s.append(digit_str(n as u8));
        proof {
            assert(s@ =~= old(s)@ + dec_str(n as int));
        }
    }
}

/// Appends the decimal rendering of a signed value to `s`.
pub fn push_dec_i32(s: &mut String, n: i32)
    ensures
        final(s)@ == old(s)@ + dec_str_signed(n as int),
{
    if n < 0 {
        proof {
            reveal_strlit("-");
        }
        s.append("-");
        let magnitude: u64 = (-(n as i64)) as u64;
        push_dec_u64(s, magnitude);
        proof {
            assert(s@ =~= old(s)@ + dec_str_signed(n as int));
        }
    } else {
        push_dec_u64(s, n as u64);
    }
}

/// Whether `c` is a decimal digit.
pub open spec fn is_dec_digit(c: char) -> bool {
    '0' <= c <= '9'
}

/// The value of one decimal digit character.
pub open spec fn digit_val(c: char) -> int {
    c as int - '0' as int
}

/// The value of a digit string read most significant digit first.
pub open spec fn dec_val(s: Seq<char>) -> int
    decreases s.len(),
{
    if s.len() == 0 {
        0
    } else {
        dec_val(s.drop_last()) * 10 + digit_val(s.last())
    }
}

/// Whether every character of `s` is a decimal digit.
pub open spec fn all_dec_digits(s: Seq<char>) -> bool {
    forall|i: int| 0 <= i < s.len() ==> is_dec_digit(#[trigger] s[i])
}

/// Whether `s` is a decimal numeral whose value fits in a `u8`.
pub open spec fn parses_as_u8(s: Seq<char>) -> bool {
    s.len() > 0 && all_dec_digits(s) && 0 <= dec_val(s) < 256
}

/// Reads a `u8` from a string of decimal digits; rejects an empty
/// string, a non-digit character, and a value over `u8::MAX`.
pub fn parse_u8(s: &str) -> (r: Option<u8>)
    ensures
        r is Some <==> parses_as_u8(s@),
        r is Some ==> r->Some_0 == dec_val(s@),
{
    let len: usize = s.unicode_len();
    if len == 0 {
        return None;
    }
    let mut acc: u32 = 0;
    let mut i: usize = 0;
    while i < len
        invariant
            0 <= i <= len,
            len == s@.len(),
            all_dec_digits(s@.take(i as int)),
            acc == dec_val(s@.take(i as int)),
            0 <= acc < 256,
        decreases len - i,
    {
        let c = s.get_char(i);
        if c < '0' || c > '9' {
            proof {
                assert(!is_dec_digit(s@[i as int]));
                assert(!all_dec_digits(s@));
            }
            return None;
        }
        let d: u32 = c as u32 - 48;
        proof {
            assert(s@.take(i + 1).drop_last() =~= s@.take(i as int));
            assert(s@.take(i + 1).last() == s@[i as int]);
            assert(dec_val(s@.take(i + 1)) == dec_val(s@.take(i as int)) * 10 + digit_val(s@[i as int]));
        }
        acc = acc * 10 + d;
        if acc > 255 {
            proof {
                if all_dec_digits(s@) {
                    lemma_dec_val_grows(s@, i + 1);
                }
            }
            return None;
        }
        i = i + 1;
    }
    proof {
        assert(s@.take(len as int) =~= s@);
    }
    Some(acc as u8)
}

/// A numeral keeps at least the value of any of its prefixes: every digit
/// appended multiplies the value so far by ten.
proof fn lemma_dec_val_grows(s: Seq<char>, i: int)
    requires
        0 <= i <= s.len(),
        all_dec_digits(s),
    ensures
        dec_val(s) >= dec_val(s.take(i)),
        dec_val(s.take(i)) >= 0,
    decreases s.len() - i,
{
    if i < s.len() {
        lemma_dec_val_grows(s, i + 1);
        assert(s.take(i + 1).drop_last() =~= s.take(i));
        assert(is_dec_digit(s[i]));
        assert(dec_val(s.take(i + 1)) == dec_val(s.take(i)) * 10 + digit_val(s.take(i + 1).last()));
        lemma_dec_val_nonneg_take(s, i);
        assert(dec_val(s.take(i)) * 10 >= dec_val(s.take(i))) by (nonlinear_arith)
            requires
                dec_val(s.take(i)) >= 0,
        ;
    } else {
        assert(s.take(i) =~= s);
        lemma_dec_val_nonneg_take(s, i);
    }
}

/// A digit string's value is never negative.
proof fn lemma_dec_val_nonneg_take(s: Seq<char>, i: int)
    requires
        0 <= i <= s.len(),
        all_dec_digits(s),
    ensures
        dec_val(s.take(i)) >= 0,
    decreases i,
{
    if i > 0 {
        assert(s.take(i).drop_last() =~= s.take(i - 1));
        lemma_dec_val_nonneg_take(s, i - 1);
        assert(is_dec_digit(s[i - 1]));
        assert(dec_val(s.take(i - 1)) * 10 >= 0) by (nonlinear_arith)
            requires
                dec_val(s.take(i - 1)) >= 0,
        ;
    }
}

} // verus!
