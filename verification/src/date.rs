//! Calendar dates in the `yyyy-mm-dd` shape the database stores them in.
//!
//! Parsing splits the text at the first two dashes (a third dash stays
//! inside the day part and makes it invalid), and each part is read as an
//! unsigned decimal integer the way
//! `str::parse` reads one — an optional leading `+`, then one or more
//! digits, rejected on overflow. Formatting zero-pads the year to four and
//! month and day to two characters.

use vstd::prelude::*;
use vstd::string::StrSliceExecFns;
use vstd::string::StringExecFns;

use crate::digits::dec_digits;
use crate::digits::padded_decimal;
use crate::digits::push_padded2_u8;
use crate::digits::push_padded4_u16;

verus! {

/// A calendar date. The parts are not range-checked against a calendar:
/// any values that fit the fields are carried as-is.
#[derive(Debug, Clone, Copy, PartialEq, Eq, Structural)]
pub struct SimpleDate {
    pub year: u16,
    pub month: u8,
    pub day: u8,
}

/// Why a date string was rejected.
#[derive(Debug, Clone, Copy, PartialEq, Eq, Structural)]
pub enum DateError {
    /// Fewer than three dash-separated parts.
    MissingPart,
    /// The year part is not an unsigned integer that fits.
    BadYear,
    /// The month part is not an unsigned integer that fits.
    BadMonth,
    /// The day part is not an unsigned integer that fits.
    BadDay,
}

/// Whether a character is a decimal digit.
pub open spec fn is_digit(c: char) -> bool {
    48 <= c as int <= 57
}

/// The value of a digit character.
pub open spec fn digit_val(c: char) -> int {
    c as int - 48
}

/// Whether every character of `s` is a decimal digit.
pub open spec fn all_digits(s: Seq<char>) -> bool {
    forall|i: int| 0 <= i < s.len() ==> is_digit(#[trigger] s[i])
}

/// Numeric value of a digit string, most significant digit first.
pub open spec fn digits_val(s: Seq<char>) -> int
    decreases s.len(),
{
    if s.len() == 0 {
        0
    } else {
        digits_val(s.drop_last()) * 10 + digit_val(s.last())
    }
}

/// The part of `s` behind the optional leading `+` that `str::parse`
/// accepts on unsigned integers.
pub open spec fn unsigned_body(s: Seq<char>) -> Seq<char> {
    if s.len() > 0 && s[0] == '+' {
        s.drop_first()
    } else {
        s
    }
}

/// Whether `s` parses as an unsigned integer no larger than `max`, the way
/// `str::parse` decides it: an optional leading `+`, then one or more
/// decimal digits, with no overflow.
pub open spec fn parses_to_unsigned(s: Seq<char>, max: int) -> bool {
    let b = unsigned_body(s);
    b.len() > 0 && all_digits(b) && digits_val(b) <= max
}

/// The value `s` parses to (meaningful when `parses_to_unsigned` holds).
pub open spec fn unsigned_value(s: Seq<char>) -> int {
    digits_val(unsigned_body(s))
}

/// Index of the first dash at or after `from`, or the length if none.
pub open spec fn dash_pos(s: Seq<char>, from: int) -> int
    decreases s.len() - from,
{
    if from < 0 {
        0
    } else if from >= s.len() {
        s.len() as int
    } else if s[from] == '-' {
        from
    } else {
        dash_pos(s, from + 1)
    }
}

/// What `SimpleDate::parse` returns: the first two dashes split the text
/// into year, month and day parts; each part must read as an unsigned
/// integer that fits its field; the year is read before the month part's
/// presence is checked, and likewise for month and day.
pub open spec fn spec_parse_date(s: Seq<char>) -> Result<SimpleDate, DateError> {
    let n = s.len() as int;
    let d1 = dash_pos(s, 0);
    let year_part = s.subrange(0, d1);
    if !parses_to_unsigned(year_part, 65535) {
        Err(DateError::BadYear)
    } else if d1 == n {
        Err(DateError::MissingPart)
    } else {
        let d2 = dash_pos(s, d1 + 1);
        let month_part = s.subrange(d1 + 1, d2);
        if !parses_to_unsigned(month_part, 255) {
            Err(DateError::BadMonth)
        } else if d2 == n {
            Err(DateError::MissingPart)
        } else {
            let day_part = s.subrange(d2 + 1, n);
            if !parses_to_unsigned(day_part, 255) {
                Err(DateError::BadDay)
            } else {
                Ok(
                    SimpleDate {
                        year: unsigned_value(year_part) as u16,
                        month: unsigned_value(month_part) as u8,
                        day: unsigned_value(day_part) as u8,
                    },
                )
            }
        }
    }
}

/// What `SimpleDate::to_iso_string` builds: zero-padded year, month and day
/// joined by dashes.
pub open spec fn date_chars(d: SimpleDate) -> Seq<char> {
    padded_decimal(d.year as int, 4) + seq!['-'] + padded_decimal(d.month as int, 2) + seq!['-']
        + padded_decimal(d.day as int, 2)
}

proof fn lemma_digits_val_nonneg(s: Seq<char>)
    requires
        all_digits(s),
    ensures
        digits_val(s) >= 0,
    decreases s.len(),
{
    if s.len() > 0 {
        assert(all_digits(s.drop_last())) by {
            assert(forall|i: int| 0 <= i < s.len() - 1 ==> s.drop_last()[i] == s[i]);
        }
        lemma_digits_val_nonneg(s.drop_last());
    }
}

/// A digit string's value never shrinks when more digits follow.
proof fn lemma_digits_val_prefix(s: Seq<char>, k: int)
    requires
        all_digits(s),
        0 <= k <= s.len(),
    ensures
        digits_val(s) >= digits_val(s.subrange(0, k)),
    decreases s.len() - k,
{
    if k == s.len() {
        assert(s.subrange(0, k) =~= s);
    } else {
        lemma_digits_val_prefix(s, k + 1);
        let p = s.subrange(0, k);
        let p1 = s.subrange(0, k + 1);
        assert(p1.drop_last() =~= p);
        assert(p1.last() == s[k]);
        assert(all_digits(p)) by {
            assert(forall|i: int| 0 <= i < k ==> p[i] == s[i]);
        }
        lemma_digits_val_nonneg(p);
        assert(digits_val(p1) == digits_val(p) * 10 + digit_val(s[k]));
    }
}

proof fn lemma_digit_char_is_digit(d: int)
    requires
        0 <= d <= 9,
    ensures
        is_digit(crate::digits::digit_char(d)),
        digit_val(crate::digits::digit_char(d)) == d,
{
}

proof fn lemma_dec_digits_all_digits(n: int)
    requires
        0 <= n,
    ensures
        all_digits(crate::digits::dec_digits(n)),
    decreases n,
{
    if n < 10 {
        lemma_digit_char_is_digit(n);
    } else {
        lemma_dec_digits_all_digits(n / 10);
        lemma_digit_char_is_digit(n % 10);
        let s = crate::digits::dec_digits(n);
        let p = crate::digits::dec_digits(n / 10);
        assert(forall|i: int| 0 <= i < p.len() ==> s[i] == p[i]);
        assert(s[s.len() - 1] == crate::digits::digit_char(n % 10));
    }
}

/// Reading back the digits of `n` yields `n`.
proof fn lemma_dec_digits_value(n: int)
    requires
        0 <= n,
    ensures
        digits_val(crate::digits::dec_digits(n)) == n,
    decreases n,
{
    if n < 10 {
        lemma_digit_char_is_digit(n);
        let s = crate::digits::dec_digits(n);
        assert(s.drop_last() =~= Seq::<char>::empty());
        assert(digits_val(Seq::<char>::empty()) == 0);
        assert(s.last() == crate::digits::digit_char(n));
        assert(digits_val(s) == digits_val(s.drop_last()) * 10 + digit_val(s.last()));
    } else {
        lemma_dec_digits_value(n / 10);
        lemma_digit_char_is_digit(n % 10);
        let s = crate::digits::dec_digits(n);
        let p = crate::digits::dec_digits(n / 10);
        assert(s.drop_last() =~= p);
        assert(s.last() == crate::digits::digit_char(n % 10));
        assert(digits_val(s) == digits_val(s.drop_last()) * 10 + digit_val(s.last()));
    }
}

proof fn lemma_zeros_value(k: int)
    ensures
        digits_val(crate::digits::zeros(k)) == 0,
        all_digits(crate::digits::zeros(k)),
    decreases k,
{
    lemma_digit_char_is_digit(0);
    if k > 0 {
        lemma_zeros_value(k - 1);
        let z = crate::digits::zeros(k);
        assert(z.drop_last() =~= crate::digits::zeros(k - 1));
        assert(z.last() == '0');
    }
}

/// Leading zeros do not change a digit string's value.
proof fn lemma_zeros_prefix_value(k: int, s: Seq<char>)
    ensures
        digits_val(crate::digits::zeros(k) + s) == digits_val(s),
    decreases s.len(),
{
    let z = crate::digits::zeros(k);
    if s.len() == 0 {
        assert(z + s =~= z);
        lemma_zeros_value(k);
    } else {
        lemma_zeros_prefix_value(k, s.drop_last());
        assert((z + s).drop_last() =~= z + s.drop_last());
        assert((z + s).last() == s.last());
    }
}

/// A zero-padded number is all digits and keeps its value.
proof fn lemma_padded_decimal(n: int, width: int)
    requires
        0 <= n,
    ensures
        all_digits(padded_decimal(n, width)),
        digits_val(padded_decimal(n, width)) == n,
        padded_decimal(n, width).len() >= 1,
{
    let k = width - crate::digits::dec_digits(n).len();
    let z = crate::digits::zeros(k);
    let d = crate::digits::dec_digits(n);
    lemma_dec_digits_all_digits(n);
    lemma_dec_digits_value(n);
    lemma_zeros_value(k);
    lemma_zeros_prefix_value(k, d);
    assert(forall|i: int| 0 <= i < (z + d).len() ==> (z + d)[i] == if i < z.len() {
        z[i]
    } else {
        d[i - z.len()]
    });
}

/// A sequence of digits holds neither a dash nor a plus sign.
proof fn lemma_digits_have_no_sign(s: Seq<char>)
    requires
        all_digits(s),
    ensures
        forall|i: int| 0 <= i < s.len() ==> s[i] != '-',
        s.len() > 0 ==> s[0] != '+',
{
}

/// Round trip: a formatted date always parses back to the same date, every
/// field included — the padding digits read back to the same values and
/// the two separating dashes are the only dashes in the text.
pub proof fn lemma_date_round_trip(d: SimpleDate)
    ensures
        spec_parse_date(date_chars(d)) == Ok::<SimpleDate, DateError>(d),
{
    let y = padded_decimal(d.year as int, 4);
    let m = padded_decimal(d.month as int, 2);
    let dd = padded_decimal(d.day as int, 2);
    let s = date_chars(d);
    let ly = y.len() as int;
    let lm = m.len() as int;
    let ld = dd.len() as int;
    let n = s.len() as int;
    lemma_padded_decimal(d.year as int, 4);
    lemma_padded_decimal(d.month as int, 2);
    lemma_padded_decimal(d.day as int, 2);
    lemma_digits_have_no_sign(y);
    lemma_digits_have_no_sign(m);
    lemma_digits_have_no_sign(dd);
    assert(n == ly + 1 + lm + 1 + ld);
    assert(forall|i: int| 0 <= i < ly ==> s[i] == y[i]);
    assert(s[ly] == '-');
    assert(forall|i: int| 0 <= i < lm ==> s[ly + 1 + i] == m[i]);
    assert(s[ly + 1 + lm] == '-');
    assert(forall|i: int| 0 <= i < ld ==> s[ly + 1 + lm + 1 + i] == dd[i]);
    lemma_dash_pos_eq(s, 0, ly);
    assert(s.subrange(0, ly) =~= y);
    assert(parses_to_unsigned(y, 65535)) by {
        assert(unsigned_body(y) == y);
    }
    lemma_dash_pos_eq(s, ly + 1, ly + 1 + lm);
    assert(s.subrange(ly + 1, ly + 1 + lm) =~= m);
    assert(parses_to_unsigned(m, 255)) by {
        assert(unsigned_body(m) == m);
    }
    assert(s.subrange(ly + 1 + lm + 1, n) =~= dd);
    assert(parses_to_unsigned(dd, 255)) by {
        assert(unsigned_body(dd) == dd);
    }
}

proof fn lemma_dash_pos_eq(s: Seq<char>, from: int, i: int)
    requires
        0 <= from <= i <= s.len(),
        forall|j: int| from <= j < i ==> s[j] != '-',
        i < s.len() ==> s[i] == '-',
    ensures
        dash_pos(s, from) == i,
    decreases i - from,
{
    if from < i {
        lemma_dash_pos_eq(s, from + 1, i);
    }
}

fn find_dash(s: &str, from: usize, n: usize) -> (r: Option<usize>)
    requires
        from <= n,
        n == s@.len(),
    ensures
        match r {
            Some(i) => from <= i < n && s@[i as int] == '-' && (forall|j: int|
                from <= j < i ==> s@[j] != '-'),
            None => forall|j: int| from <= j < n ==> s@[j] != '-',
        },
{
    let mut i: usize = from;
    while i < n
        invariant
            from <= i <= n,
            n == s@.len(),
            forall|j: int| from <= j < i ==> s@[j] != '-',
        decreases n - i,
    {
        if s.get_char(i) == '-' {
            return Some(i);
        }
        i = i + 1;
    }
    None
}

fn parse_unsigned_range(s: &str, from: usize, to: usize, max: u32) -> (r: Option<u32>)
    requires
        from <= to <= s@.len(),
        max <= 0xFFFF,
    ensures
        match r {
            Some(v) => parses_to_unsigned(s@.subrange(from as int, to as int), max as int) && v
                as int == unsigned_value(s@.subrange(from as int, to as int)),
            None => !parses_to_unsigned(s@.subrange(from as int, to as int), max as int),
        },
{
    let ghost part = s@.subrange(from as int, to as int);
    let start: usize = if from < to && s.get_char(from) == '+' {
        from + 1
    } else {
        from
    };
    let ghost body = unsigned_body(part);
    proof {
        if from < to && s@[from as int] == '+' {
            assert(part[0] == '+');
            assert(body =~= s@.subrange(start as int, to as int));
        } else {
            assert(body =~= s@.subrange(start as int, to as int));
        }
    }
    if start == to {
        return None;
    }
    let mut val: u32 = 0;
    let mut i: usize = start;
    while i < to
        invariant
            start <= i <= to,
            to <= s@.len(),
            max <= 0xFFFF,
            body == s@.subrange(start as int, to as int),
            body == unsigned_body(s@.subrange(from as int, to as int)),
            all_digits(s@.subrange(start as int, i as int)),
            val as int == digits_val(s@.subrange(start as int, i as int)),
            val <= max,
        decreases to - i,
    {
        let c = s.get_char(i);
        let u = c as u32;
        if u < 48 || u > 57 {
            proof {
                assert(body[i - start] == s@[i as int]);
                assert(!is_digit(body[i - start]));
            }
            return None;
        }
        let d = u - 48;
        let next = val * 10 + d;
        let ghost pre = s@.subrange(start as int, i as int);
        let ghost pre1 = s@.subrange(start as int, i as int + 1);
        proof {
            assert(pre1.drop_last() =~= pre);
            assert(pre1.last() == s@[i as int]);
            assert(all_digits(pre1)) by {
                assert(forall|j: int| 0 <= j < pre.len() ==> pre1[j] == pre[j]);
            }
            assert(digits_val(pre1) == digits_val(pre) * 10 + digit_val(s@[i as int]));
        }
        if next > max {
            proof {
                if all_digits(body) {
                    assert(pre1 =~= body.subrange(0, i as int + 1 - start));
                    lemma_digits_val_prefix(body, i as int + 1 - start);
                }
            }
            return None;
        }
        val = next;
        i = i + 1;
    }
    proof {
        assert(body =~= s@.subrange(start as int, i as int));
    }
    Some(val)
}

impl SimpleDate {
    /// Read a date from its `yyyy-mm-dd` text form.
    pub fn parse(s: &str) -> (r: Result<SimpleDate, DateError>)
        ensures
            r == spec_parse_date(s@),
    {
        let n = s.unicode_len();
        let d1: usize = match find_dash(s, 0, n) {
            Some(i) => i,
            None => n,
        };
        proof {
            lemma_dash_pos_eq(s@, 0, d1 as int);
        }
        let year = match parse_unsigned_range(s, 0, d1, 65535) {
            Some(v) => v,
            None => {
                return Err(DateError::BadYear);
            },
        };
        if d1 == n {
            return Err(DateError::MissingPart);
        }
        let d2: usize = match find_dash(s, d1 + 1, n) {
            Some(i) => i,
            None => n,
        };
        proof {
            lemma_dash_pos_eq(s@, d1 as int + 1, d2 as int);
        }
        let month = match parse_unsigned_range(s, d1 + 1, d2, 255) {
            Some(v) => v,
            None => {
                return Err(DateError::BadMonth);
            },
        };
        if d2 == n {
            return Err(DateError::MissingPart);
        }
        let day = match parse_unsigned_range(s, d2 + 1, n, 255) {
            Some(v) => v,
            None => {
                return Err(DateError::BadDay);
            },
        };
        Ok(SimpleDate { year: year as u16, month: month as u8, day: day as u8 })
    }

    /// Write the date in its `yyyy-mm-dd` text form.
    pub fn to_iso_string(&self) -> (r: String)
        ensures
            r@ == date_chars(*self),
    {
        let mut buf = String::new();
        push_padded4_u16(&mut buf, self.year);
        buf.append("-");
        push_padded2_u8(&mut buf, self.month);
        buf.append("-");
        push_padded2_u8(&mut buf, self.day);
        proof {
            reveal_strlit("-");
            assert("-"@ =~= seq!['-']);
            assert(buf@ =~= date_chars(*self));
        }
        buf
    }
}

} // verus!
