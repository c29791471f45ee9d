//! ANSI/VT true-color SGR escape sequences, built character by character.
//!
//! A foreground color is selected by `ESC[38;2;{r};{g};{b}m`, a background
//! color by `ESC[48;2;{r};{g};{b}m`, and a styled run is closed by `ESC[0m`.
//! Color components are written in decimal with no leading zeros.

use vstd::prelude::*;
use vstd::string::StringExecFns;

use crate::digits::dec_digits;
use crate::digits::push_decimal;

verus! {

/// A full color-selecting escape sequence: `ESC [ {selector} 8 ; 2 ;` then
/// the three decimal components separated by `;`, closed by `m`.
pub open spec fn color_escape(selector: char, c: (u8, u8, u8)) -> Seq<char> {
    seq!['\u{1b}', '[', selector, '8', ';', '2', ';'] + dec_digits(c.0 as int) + seq![';']
        + dec_digits(c.1 as int) + seq![';'] + dec_digits(c.2 as int) + seq!['m']
}

/// Foreground escape: `ESC[38;2;{r};{g};{b}m`.
pub open spec fn fg_escape(c: (u8, u8, u8)) -> Seq<char> {
    color_escape('3', c)
}

/// Background escape: `ESC[48;2;{r};{g};{b}m`.
pub open spec fn bg_escape(c: (u8, u8, u8)) -> Seq<char> {
    color_escape('4', c)
}

/// Reset escape closing a styled run: `ESC[0m`.
pub open spec fn reset_escape() -> Seq<char> {
    seq!['\u{1b}', '[', '0', 'm']
}

/// Append a foreground-color escape for `c` to `buf`.
pub fn push_fg(buf: &mut String, c: (u8, u8, u8))
    ensures
        final(buf)@ == old(buf)@ + fg_escape(c),
{
    buf.append("\u{1b}[38;2;");
    push_decimal(buf, c.0);
    buf.append(";");
    push_decimal(buf, c.1);
    buf.append(";");
    push_decimal(buf, c.2);
    buf.append("m");
    proof {
        reveal_strlit("\u{1b}[38;2;");
        reveal_strlit(";");
        reveal_strlit("m");
        assert("\u{1b}[38;2;"@ =~= seq!['\u{1b}', '[', '3', '8', ';', '2', ';']);
        assert(";"@ =~= seq![';']);
        assert("m"@ =~= seq!['m']);
        assert(buf@ =~= old(buf)@ + fg_escape(c));
    }
}

/// Append a background-color escape for `c` to `buf`.
pub fn push_bg(buf: &mut String, c: (u8, u8, u8))
    ensures
        final(buf)@ == old(buf)@ + bg_escape(c),
{
    buf.append("\u{1b}[48;2;");
    push_decimal(buf, c.0);
    buf.append(";");
    push_decimal(buf, c.1);
    buf.append(";");
    push_decimal(buf, c.2);
    buf.append("m");
    proof {
        reveal_strlit("\u{1b}[48;2;");
        reveal_strlit(";");
        reveal_strlit("m");
        assert("\u{1b}[48;2;"@ =~= seq!['\u{1b}', '[', '4', '8', ';', '2', ';']);
        assert(";"@ =~= seq![';']);
        assert("m"@ =~= seq!['m']);
        assert(buf@ =~= old(buf)@ + bg_escape(c));
    }
}

/// Append the reset escape to `buf`.
pub fn push_reset(buf: &mut String)
    ensures
        final(buf)@ == old(buf)@ + reset_escape(),
{
    buf.append("\u{1b}[0m");
    proof {
        reveal_strlit("\u{1b}[0m");
        assert("\u{1b}[0m"@ =~= reset_escape());
        assert(buf@ =~= old(buf)@ + reset_escape());
    }
}

/// Relies on `String::push` (std): appends the given character to the end of
/// the string.
#[verifier::external_body]
pub fn push_char(buf: &mut String, c: char)
    ensures
        final(buf)@ == old(buf)@ + seq![c],
{
    buf.push(c);
}

/// A character sequence that holds no carriage return.
pub open spec fn cr_free(s: Seq<char>) -> bool {
    forall|i: int| 0 <= i < s.len() ==> s[i] != '\r'
}

/// Decimal digits never include a carriage return.
pub proof fn lemma_dec_digits_cr_free(n: int)
    ensures
        cr_free(dec_digits(n)),
    decreases n,
{
    if n >= 10 {
        lemma_dec_digits_cr_free(n / 10);
    }
}

/// Color escapes never include a carriage return (their selector characters
/// are '3' and '4').
pub proof fn lemma_color_escape_cr_free(c: (u8, u8, u8))
    ensures
        cr_free(fg_escape(c)),
        cr_free(bg_escape(c)),
        cr_free(reset_escape()),
{
    lemma_dec_digits_cr_free(c.0 as int);
    lemma_dec_digits_cr_free(c.1 as int);
    lemma_dec_digits_cr_free(c.2 as int);
}

} // verus!
