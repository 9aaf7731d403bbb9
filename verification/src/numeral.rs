//! Decimal rendering of integers, used for fallback timestamps and for
//! command-line argument rendering.

use vstd::prelude::*;

verus! {

/// The decimal digit character for `d` (`0 <= d < 10`).
pub open spec fn digit_char(d: int) -> char {
    if d == 0 {
        '0'
    } else if d == 1 {
        '1'
    } else if d == 2 {
        '2'
    } else if d == 3 {
        '3'
    } else if d == 4 {
        '4'
    } else if d == 5 {
        '5'
    } else if d == 6 {
        '6'
    } else if d == 7 {
        '7'
    } else if d == 8 {
        '8'
    } else {
        '9'
    }
}

/// The decimal digits of a non-negative integer, most significant first.
pub open spec fn dec_digits(n: int) -> Seq<char>
    decreases n,
{
    if n < 10 {
        seq![digit_char(n)]
    } else {
        dec_digits(n / 10).push(digit_char(n % 10))
    }
}

/// The decimal rendering of an integer, with a leading minus sign when it is
/// negative.
pub open spec fn dec_int(v: int) -> Seq<char> {
    if v < 0 {
        seq!['-'] + dec_digits(-v)
    } else {
        dec_digits(v)
    }
}

pub(crate) fn digit_str(d: u64) -> (r: &'static str)
    requires
        d < 10,
    ensures
        r@ =~= seq![digit_char(d as int)],
{
    if d == 0 {
        proof {
            reveal_strlit("0");
        }
        return "0";
    }
    if d == 1 {
        proof {
            reveal_strlit("1");
        }
        return "1";
    }
    if d == 2 {
        proof {
            reveal_strlit("2");
        }
        return "2";
    }
    if d == 3 {
        proof {
            reveal_strlit("3");
        }
        return "3";
    }
    if d == 4 {
        proof {
            reveal_strlit("4");
        }
        return "4";
    }
    if d == 5 {
        proof {
            reveal_strlit("5");
        }
        return "5";
    }
    if d == 6 {
        proof {
            reveal_strlit("6");
        }
        return "6";
    }
    if d == 7 {
        proof {
            reveal_strlit("7");
        }
        return "7";
    }
    if d == 8 {
        proof {
            reveal_strlit("8");
        }
        return "8";
    }
    proof {
        reveal_strlit("9");
    }
    "9"
}

/// Renders a `u64` in decimal.
pub fn u64_to_string(n: u64) -> (r: String)
    ensures
        r@ == dec_digits(n as int),
    decreases n,
{
    if n < 10 {
        digit_str(n).to_owned()
    } else {
        let mut s = u64_to_string(n / 10);
        s.append(digit_str(n % 10));
        proof {
            assert(dec_digits(n as int / 10) + seq![digit_char(n as int % 10)] =~= dec_digits(
                n as int,
            ));
        }
        s
    }
}

/// Renders a `usize` in decimal.
pub fn usize_to_string(n: usize) -> (r: String)
    ensures
        r@ == dec_digits(n as int),
    decreases n,
{
    if n < 10 {
        digit_str(n as u64).to_owned()
    } else {
        let mut s = usize_to_string(n / 10);
        s.append(digit_str((n % 10) as u64));
        proof {
            assert(dec_digits(n as int / 10) + seq![digit_char(n as int % 10)] =~= dec_digits(
                n as int,
            ));
        }
        s
    }
}

/// Renders an `i64` in decimal.
pub fn i64_to_string(v: i64) -> (r: String)
    ensures
        r@ == dec_int(v as int),
{
    if v >= 0 {
        u64_to_string(v as u64)
    } else {
        let mag: u64 = if v == i64::MIN {
            9223372036854775808u64
        } else {
            (-v) as u64
        };
        let mut s = "-".to_owned();
        let digits = u64_to_string(mag);
        s.append(digits.as_str());
        proof {
            reveal_strlit("-");
            assert("-"@ + dec_digits(mag as int) =~= dec_int(v as int));
        }
        s
    }
}

} // verus!
