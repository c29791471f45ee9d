//! Decimal rendering of small unsigned integers, plain and zero-padded.

use vstd::prelude::*;
use vstd::string::StringExecFns;

verus! {

/// The character that a single decimal digit value prints as.
pub open spec fn digit_char(d: int) -> char {
    if d == 0 {
        '0'
    } else if d == 1 {
        '1'
    } else if d == 2 {
        '2'
    } else if d == 3 {
        '3'
    } else if d == 4 {
        '4'
    } else if d == 5 {
        '5'
    } else if d == 6 {
        '6'
    } else if d == 7 {
        '7'
    } else if d == 8 {
        '8'
    } else {
        '9'
    }
}

/// Decimal digits of `n`, most significant first, no leading zeros.
pub open spec fn dec_digits(n: int) -> Seq<char>
    decreases n,
{
    if n < 10 {
        seq![digit_char(n)]
    } else {
        dec_digits(n / 10).push(digit_char(n % 10))
    }
}

/// A run of `k` zero characters (empty when `k <= 0`).
pub open spec fn zeros(k: int) -> Seq<char> {
    Seq::new(
        if k <= 0 {
            0
        } else {
            k as nat
        },
        |i: int| '0',
    )
}

/// `n` in decimal, left-padded with zeros to at least `width` characters.
pub open spec fn padded_decimal(n: int, width: int) -> Seq<char> {
    zeros(width - dec_digits(n).len()) + dec_digits(n)
}

/// How many digits a value in the `u16` range prints as.
pub proof fn lemma_dec_digits_len(n: int)
    ensures
        0 <= n < 10 ==> dec_digits(n).len() == 1,
        10 <= n < 100 ==> dec_digits(n).len() == 2,
        100 <= n < 1000 ==> dec_digits(n).len() == 3,
        1000 <= n < 10000 ==> dec_digits(n).len() == 4,
        10000 <= n < 100000 ==> dec_digits(n).len() == 5,
    decreases n,
{
    if n >= 10 {
        lemma_dec_digits_len(n / 10);
    }
}

/// The one-character string for a decimal digit value.
pub(crate) fn digit_str(d: u8) -> (s: &'static str)
    requires
        d < 10,
    ensures
        s@ == seq![digit_char(d as int)],
{
    if d == 0 {
        proof {
            reveal_strlit("0");
            assert("0"@ =~= seq![digit_char(0int)]);
        }
        "0"
    } else if d == 1 {
        proof {
            reveal_strlit("1");
            assert("1"@ =~= seq![digit_char(1int)]);
        }
        "1"
    } else if d == 2 {
        proof {
            reveal_strlit("2");
            assert("2"@ =~= seq![digit_char(2int)]);
        }
        "2"
    } else if d == 3 {
        proof {
            reveal_strlit("3");
            assert("3"@ =~= seq![digit_char(3int)]);
        }
        "3"
    } else if d == 4 {
        proof {
            reveal_strlit("4");
            assert("4"@ =~= seq![digit_char(4int)]);
        }
        "4"
    } else if d == 5 {
        proof {
            reveal_strlit("5");
            assert("5"@ =~= seq![digit_char(5int)]);
        }
        "5"
    } else if d == 6 {
        proof {
            reveal_strlit("6");
            assert("6"@ =~= seq![digit_char(6int)]);
        }
        "6"
    } else if d == 7 {
        proof {
            reveal_strlit("7");
            assert("7"@ =~= seq![digit_char(7int)]);
        }
        "7"
    } else if d == 8 {
        proof {
            reveal_strlit("8");
            assert("8"@ =~= seq![digit_char(8int)]);
        }
        "8"
    } else {
        proof {
            reveal_strlit("9");
            assert("9"@ =~= seq![digit_char(9int)]);
        }
        "9"
    }
}

/// Append the decimal digits of `n` (no leading zeros) to `buf`.
pub fn push_decimal(buf: &mut String, n: u8)
    ensures
        final(buf)@ == old(buf)@ + dec_digits(n as int),
{
    if n >= 100 {
        buf.append(digit_str(n / 100));
    }
    if n >= 10 {
        buf.append(digit_str((n / 10) % 10));
    }
    buf.append(digit_str(n % 10));
    proof {
        let m = n as int;
        if m < 10 {
            assert(buf@ =~= old(buf)@ + dec_digits(m));
        } else if m < 100 {
            assert(dec_digits(m) == dec_digits(m / 10).push(digit_char(m % 10)));
            assert(m / 10 < 10);
            assert(dec_digits(m / 10) == seq![digit_char(m / 10)]);
            assert(buf@ =~= old(buf)@ + dec_digits(m));
        } else {
            assert(dec_digits(m) == dec_digits(m / 10).push(digit_char(m % 10)));
            assert(10 <= m / 10 < 100);
            assert(dec_digits(m / 10) == dec_digits(m / 10 / 10).push(digit_char(m / 10 % 10)));
            assert(m / 10 / 10 == m / 100) by {
                vstd::arithmetic::div_mod::lemma_div_denominator(m, 10, 10);
            }
            assert(m / 100 < 10);
            assert(dec_digits(m / 100) == seq![digit_char(m / 100)]);
            assert(buf@ =~= old(buf)@ + dec_digits(m));
        }
    }
}

/// Append the decimal digits of `n` (no leading zeros) to `buf`.
pub fn push_decimal_u16(buf: &mut String, n: u16)
    ensures
        final(buf)@ == old(buf)@ + dec_digits(n as int),
    decreases n,
{
    if n >= 10 {
        push_decimal_u16(buf, n / 10);
        buf.append(digit_str((n % 10) as u8));
        proof {
            assert(dec_digits(n as int) == dec_digits(n as int / 10).push(
                digit_char(n as int % 10),
            ));
            assert(buf@ =~= old(buf)@ + dec_digits(n as int));
        }
    } else {
        buf.append(digit_str(n as u8));
        proof {
            assert(buf@ =~= old(buf)@ + dec_digits(n as int));
        }
    }
}

/// Append `n` zero-padded to at least four characters.
pub fn push_padded4_u16(buf: &mut String, n: u16)
    ensures
        final(buf)@ == old(buf)@ + padded_decimal(n as int, 4),
{
    if n < 1000 {
        buf.append("0");
    }
    if n < 100 {
        buf.append("0");
    }
    if n < 10 {
        buf.append("0");
    }
    push_decimal_u16(buf, n);
    proof {
        reveal_strlit("0");
        lemma_dec_digits_len(n as int);
        assert(buf@ =~= old(buf)@ + padded_decimal(n as int, 4));
    }
}

/// Append `n` zero-padded to at least two characters.
pub fn push_padded2_u8(buf: &mut String, n: u8)
    ensures
        final(buf)@ == old(buf)@ + padded_decimal(n as int, 2),
{
    if n < 10 {
        buf.append("0");
    }
    push_decimal(buf, n);
    proof {
        reveal_strlit("0");
        lemma_dec_digits_len(n as int);
        assert(buf@ =~= old(buf)@ + padded_decimal(n as int, 2));
    }
}

} // verus!
